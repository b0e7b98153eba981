//! Recursive directory-size calculation over an already-listed file tree.
//! Walking the disk happens outside this core; the tree hands each entry's
//! own size, block count and children in as plain values, and the
//! aggregation and row emission here are exact.

use vstd::prelude::*;

verus! {

/// The recursive-size command's configuration: the files to measure and
/// whether subdirectory rows are suppressed.
pub struct Du {
    /// The files to calculate the recursive size of.
    pub directory: Vec<String>,
    /// Do not show directory sizes for subdirectories.
    pub silent: bool,
}

/// One listed file or directory: its own size and block count, and its
/// children when it is a directory.
pub struct FsEntry {
    pub path: String,
    pub size: u64,
    pub blocks: u64,
    pub is_directory: bool,
    pub children: Vec<FsEntry>,
}

/// One output row: a recursive size, a recursive block count, and the file
/// they belong to.
pub struct DuRow {
    pub size: u64,
    pub blocks: u64,
    pub file: String,
}

/// The recursive byte total of an entry: its own size plus, for a
/// directory, its children's totals.
pub open spec fn spec_total_size(e: FsEntry) -> int
    decreases e, 0int,
{
    e.size + (if e.is_directory {
        spec_children_size(e.children@, 0)
    } else {
        0
    })
}

pub open spec fn spec_children_size(s: Seq<FsEntry>, i: int) -> int
    decreases s, s.len() - i,
{
    if i < 0 || i >= s.len() {
        0
    } else {
        spec_total_size(s[i]) + spec_children_size(s, i + 1)
    }
}

/// The recursive block total of an entry.
pub open spec fn spec_total_blocks(e: FsEntry) -> int
    decreases e, 0int,
{
    e.blocks + (if e.is_directory {
        spec_children_blocks(e.children@, 0)
    } else {
        0
    })
}

pub open spec fn spec_children_blocks(s: Seq<FsEntry>, i: int) -> int
    decreases s, s.len() - i,
{
    if i < 0 || i >= s.len() {
        0
    } else {
        spec_total_blocks(s[i]) + spec_children_blocks(s, i + 1)
    }
}

/// A total clamped to what a counter can carry.
pub open spec fn spec_clamp(v: int) -> int {
    if v > u64::MAX {
        u64::MAX as int
    } else {
        v
    }
}

/// The rows a directory's walk emits: depth first, each directory child's
/// subtree rows followed by that child's own row (unless silenced).
pub open spec fn spec_rows(e: FsEntry, silent: bool) -> Seq<(int, int, Seq<char>)>
    decreases e, 0int,
{
    if e.is_directory {
        spec_children_rows(e.children@, silent, 0)
    } else {
        Seq::empty()
    }
}

pub open spec fn spec_children_rows(s: Seq<FsEntry>, silent: bool, i: int) -> Seq<
    (int, int, Seq<char>),
>
    decreases s, s.len() - i,
{
    if i < 0 || i >= s.len() {
        Seq::empty()
    } else {
        spec_rows(s[i], silent) + (if !silent && s[i].is_directory {
            seq![
                (
                    spec_clamp(spec_total_size(s[i])),
                    spec_clamp(spec_total_blocks(s[i])),
                    s[i].path@,
                ),
            ]
        } else {
            Seq::empty()
        }) + spec_children_rows(s, silent, i + 1)
    }
}

pub open spec fn spec_row_seq(s: Seq<DuRow>, i: int) -> Seq<(int, int, Seq<char>)>
    decreases s.len() - i,
{
    if i < 0 || i >= s.len() {
        Seq::empty()
    } else {
        seq![(s[i].size as int, s[i].blocks as int, s[i].file@)] + spec_row_seq(s, i + 1)
    }
}

pub proof fn lemma_spec_row_seq(s: Seq<DuRow>, i: int)
    requires
        0 <= i <= s.len(),
    ensures
        spec_row_seq(s, i).len() == s.len() - i,
        forall|j: int|
            0 <= j < s.len() - i ==> #[trigger] spec_row_seq(s, i)[j] == (
            s[i + j].size as int,
            s[i + j].blocks as int,
            s[i + j].file@,
            ),
    decreases s.len() - i,
{
    if i < s.len() {
        lemma_spec_row_seq(s, i + 1);
        assert forall|j: int| 0 <= j < s.len() - i implies #[trigger] spec_row_seq(s, i)[j] == (
            s[i + j].size as int,
            s[i + j].blocks as int,
            s[i + j].file@,
        ) by {
            if j > 0 {
                assert(spec_row_seq(s, i)[j] == spec_row_seq(s, i + 1)[j - 1]);
            }
        }
    }
}

/// Totals are sums of counters, so they are never negative.
proof fn lemma_total_nonneg(e: FsEntry)
    ensures
        spec_total_size(e) >= 0,
        spec_total_blocks(e) >= 0,
    decreases e, 0int,
{
    if e.is_directory {
        lemma_children_nonneg(e.children@, 0);
    }
}

proof fn lemma_children_nonneg(s: Seq<FsEntry>, i: int)
    ensures
        spec_children_size(s, i) >= 0,
        spec_children_blocks(s, i) >= 0,
    decreases s, s.len() - i,
{
    if 0 <= i < s.len() {
        lemma_total_nonneg(s[i]);
        lemma_children_nonneg(s, i + 1);
    }
}

/// Walks one entry: appends its subtree's rows to `output` and returns its
/// recursive size and block totals, each saturating at the counter limit.
pub fn size(entry: &FsEntry, silent: bool, output: &mut Vec<DuRow>) -> (r: (u64, u64))
    ensures
        r.0 as int == spec_clamp(spec_total_size(*entry)),
        r.1 as int == spec_clamp(spec_total_blocks(*entry)),
        spec_row_seq(final(output)@, 0) == spec_row_seq(old(output)@, 0) + spec_rows(
            *entry,
            silent,
        ),
    decreases *entry,
{
    if !entry.is_directory {
        proof {
            assert(spec_row_seq(output@, 0) + spec_rows(*entry, silent) =~= spec_row_seq(
                output@,
                0,
            ));
        }
        return (entry.size, entry.blocks);
    }
    let own = &entry.children;
    let ghost base = spec_row_seq(output@, 0);
    let mut sz: u64 = entry.size;
    let mut bl: u64 = entry.blocks;
    let mut i: usize = 0;
    let n = own.len();
    proof {
        assert(base + spec_children_rows(own@, silent, 0) =~= base + spec_children_rows(
            own@,
            silent,
            0,
        ));
    }
    while i < n
        invariant
            i <= n,
            n == own@.len(),
            own == &entry.children,
            entry.is_directory,
            decreases_to!(*entry => *own),
            sz as int == spec_clamp(
                entry.size + spec_children_size(own@, 0) - spec_children_size(own@, i as int),
            ),
            bl as int == spec_clamp(
                entry.blocks + spec_children_blocks(own@, 0) - spec_children_blocks(
                    own@,
                    i as int,
                ),
            ),
            base + spec_children_rows(own@, silent, 0) == spec_row_seq(output@, 0)
                + spec_children_rows(own@, silent, i as int),
        decreases n - i,
    {
        let child = &own[i];
        let (child_sz, child_bl) = size(child, silent, output);
        proof {
            lemma_total_nonneg(*child);
            lemma_children_nonneg(own@, i + 1);
            lemma_children_nonneg(own@, 0);
        }
        let ghost out1 = output@;
        if !silent && child.is_directory {
            output.push(DuRow { size: child_sz, blocks: child_bl, file: child.path.clone() });
            proof {
                lemma_spec_row_seq(out1, 0);
                lemma_spec_row_seq(output@, 0);
                assert(spec_row_seq(output@, 0) =~= spec_row_seq(out1, 0) + seq![
                    (
                        spec_clamp(spec_total_size(own@[i as int])),
                        spec_clamp(spec_total_blocks(own@[i as int])),
                        own@[i as int].path@,
                    ),
                ]);
            }
        }
        proof {
            assert(spec_children_rows(own@, silent, i as int) == spec_rows(
                own@[i as int],
                silent,
            ) + (if !silent && own@[i as int].is_directory {
                seq![
                    (
                        spec_clamp(spec_total_size(own@[i as int])),
                        spec_clamp(spec_total_blocks(own@[i as int])),
                        own@[i as int].path@,
                    ),
                ]
            } else {
                Seq::<(int, int, Seq<char>)>::empty()
            }) + spec_children_rows(own@, silent, i + 1));
            assert(base + spec_children_rows(own@, silent, 0) =~= spec_row_seq(output@, 0)
                + spec_children_rows(own@, silent, i + 1));
            assert(spec_children_size(own@, i as int) == spec_total_size(own@[i as int])
                + spec_children_size(own@, i + 1));
            assert(spec_children_blocks(own@, i as int) == spec_total_blocks(own@[i as int])
                + spec_children_blocks(own@, i + 1));
        }
        sz = saturating_add(sz, child_sz);
        bl = saturating_add(bl, child_bl);
        i = i + 1;
    }
    proof {
        assert(spec_children_size(own@, n as int) == 0);
        assert(spec_children_blocks(own@, n as int) == 0);
        assert(spec_children_rows(own@, silent, n as int) =~= Seq::<(int, int, Seq<char>)>::empty());
        assert(base + spec_children_rows(own@, silent, 0) =~= spec_row_seq(output@, 0));
    }
    (sz, bl)
}

/// Saturating addition on counters.
pub fn saturating_add(a: u64, b: u64) -> (r: u64)
    ensures
        r as int == spec_clamp(a + b),
{
    if a <= u64::MAX - b {
        a + b
    } else {
        u64::MAX
    }
}

/// Measures each listed file tree in order: the tree's subtree rows are
/// followed by one row for the tree itself.
pub fn du(trees: &Vec<FsEntry>, silent: bool) -> (r: Vec<DuRow>)
    ensures
        spec_row_seq(r@, 0) == spec_du_rows(trees@, silent, 0),
{
    let mut output: Vec<DuRow> = Vec::new();
    let mut i: usize = 0;
    let n = trees.len();
    proof {
        assert(spec_row_seq(output@, 0) =~= Seq::<(int, int, Seq<char>)>::empty());
    }
    while i < n
        invariant
            i <= n,
            n == trees@.len(),
            spec_du_rows(trees@, silent, 0) == spec_row_seq(output@, 0) + spec_du_rows(
                trees@,
                silent,
                i as int,
            ),
        decreases n - i,
    {
        let (sz, bl) = size(&trees[i], silent, &mut output);
        let ghost out1 = output@;
        output.push(DuRow { size: sz, blocks: bl, file: trees[i].path.clone() });
        proof {
            lemma_total_nonneg(trees@[i as int]);
            lemma_spec_row_seq(out1, 0);
            lemma_spec_row_seq(output@, 0);
            assert(spec_row_seq(output@, 0) =~= spec_row_seq(out1, 0) + seq![
                (
                    spec_clamp(spec_total_size(trees@[i as int])),
                    spec_clamp(spec_total_blocks(trees@[i as int])),
                    trees@[i as int].path@,
                ),
            ]);
            assert(spec_du_rows(trees@, silent, 0) =~= spec_row_seq(output@, 0) + spec_du_rows(
                trees@,
                silent,
                i + 1,
            ));
        }
        i = i + 1;
    }
    proof {
        assert(spec_du_rows(trees@, silent, n as int) =~= Seq::<(int, int, Seq<char>)>::empty());
        assert(spec_du_rows(trees@, silent, 0) =~= spec_row_seq(output@, 0));
    }
    output
}

/// The rows a whole run emits: per tree, its subtree rows then its own
/// row.
pub open spec fn spec_du_rows(s: Seq<FsEntry>, silent: bool, i: int) -> Seq<(int, int, Seq<char>)>
    decreases s.len() - i,
{
    if i < 0 || i >= s.len() {
        Seq::empty()
    } else {
        spec_rows(s[i], silent) + seq![
            (
                spec_clamp(spec_total_size(s[i])),
                spec_clamp(spec_total_blocks(s[i])),
                s[i].path@,
            ),
        ] + spec_du_rows(s, silent, i + 1)
    }
}

} // verus!
