//! The journal command's decision logic: which journal files to open, how
//! a seek target becomes a microsecond timestamp, what each polled record
//! turns into, and the namespace declaration that exposes the command.
//! Reading the journal itself happens outside this core; times are plain
//! microseconds since the epoch.

use vstd::prelude::*;
use crate::errors::{argument_error, error, JobError};
use crate::value::{
    ArgumentDescription, CommandSignature, Scope, SpecValue, Value, ValueType, spec_field_seq,
    spec_value,
};

verus! {

/// Which journal files a read covers.
#[derive(Debug, Clone, Copy, PartialEq, Eq, Structural)]
pub enum JournalFiles {
    All,
    System,
    CurrentUser,
}

/// The journal command's parsed configuration.
pub struct JournalSignature {
    /// Wait for more data at the end of the journal.
    pub follow: bool,
    /// Leave out system logs.
    pub skip_system_files: bool,
    /// Leave out this user's logs.
    pub skip_user_files: bool,
    /// Start reading at the end of the log.
    pub runtime_only: bool,
    /// Only show entries generated locally.
    pub local_only: bool,
    /// Seek to this value before reading, when given.
    pub seek: Option<Value>,
    /// Key-value filters on journal entries.
    pub filters: Vec<(String, String)>,
}

/// Chooses the journal files to open from the two skip flags; skipping
/// both is an error.
pub fn parse_files(cfg: &JournalSignature) -> (r: Result<JournalFiles, JobError>)
    ensures
        (if !cfg.skip_system_files && !cfg.skip_user_files {
            r matches Ok(JournalFiles::All)
        } else if !cfg.skip_system_files && cfg.skip_user_files {
            r matches Ok(JournalFiles::System)
        } else if cfg.skip_system_files && !cfg.skip_user_files {
            r matches Ok(JournalFiles::CurrentUser)
        } else {
            r matches Err(e) && e.message@ == "No files specified"@
        }),
{
    match (!cfg.skip_system_files, !cfg.skip_user_files) {
        (true, true) => Ok(JournalFiles::All),
        (true, false) => Ok(JournalFiles::System),
        (false, true) => Ok(JournalFiles::CurrentUser),
        (false, false) => Err(argument_error("No files specified")),
    }
}

/// Microseconds since the epoch for a seek: a time before the epoch cannot
/// be expressed as a journal clock position.
pub fn usec_since_epoch(micros: i64) -> (r: Result<u64, JobError>)
    ensures
        micros >= 0 ==> (r matches Ok(u) && u == micros as u64),
        micros < 0 ==> (r matches Err(e) && e.message@ == "Time overflow"@),
{
    if micros >= 0 {
        Ok(micros as u64)
    } else {
        Err(error("Time overflow"))
    }
}

/// What polling the journal once leads to.
pub enum JournalStep {
    /// No record and not following: reading ends.
    Stop,
    /// No record while following: block for more data.
    Wait,
    /// A record: emit a row of its timestamp and fields.
    Emit(Value, Value),
}

/// One record read from the journal, as plain values.
pub struct JournalRecord {
    pub timestamp_micros: i64,
    pub fields: Vec<(String, String)>,
}

/// The fields of a record as a struct value of string fields.
pub open spec fn spec_record_struct(fields: Seq<(Seq<char>, Seq<char>)>) -> SpecValue {
    SpecValue::Struct(
        Seq::new(fields.len(), |j: int| (fields[j].0, SpecValue::String(fields[j].1))),
    )
}

pub open spec fn spec_field_text_seq(s: Seq<(String, String)>, i: int) -> Seq<
    (Seq<char>, Seq<char>),
>
    decreases s.len() - i,
{
    if i < 0 || i >= s.len() {
        Seq::empty()
    } else {
        seq![(s[i].0@, s[i].1@)] + spec_field_text_seq(s, i + 1)
    }
}

pub proof fn lemma_spec_field_text_seq(s: Seq<(String, String)>, i: int)
    requires
        0 <= i <= s.len(),
    ensures
        spec_field_text_seq(s, i).len() == s.len() - i,
        forall|j: int|
            0 <= j < s.len() - i ==> #[trigger] spec_field_text_seq(s, i)[j] == (
            s[i + j].0@,
            s[i + j].1@,
            ),
    decreases s.len() - i,
{
    if i < s.len() {
        lemma_spec_field_text_seq(s, i + 1);
        assert forall|j: int| 0 <= j < s.len() - i implies #[trigger] spec_field_text_seq(s, i)[j]
            == (s[i + j].0@, s[i + j].1@) by {
            if j > 0 {
                assert(spec_field_text_seq(s, i)[j] == spec_field_text_seq(s, i + 1)[j - 1]);
            }
        }
    }
}

/// Decides what one poll of the journal means: stop at the end unless
/// following, wait when following, and turn a record into a time value
/// and a struct of its fields.
pub fn journal_step(follow: bool, record: Option<JournalRecord>) -> (r: JournalStep)
    ensures
        (match record {
            None => if follow {
                r is Wait
            } else {
                r is Stop
            },
            Some(rec) => r matches JournalStep::Emit(t, d) && t@ == SpecValue::Time(
                rec.timestamp_micros as int,
            ) && d@ == spec_record_struct(spec_field_text_seq(rec.fields@, 0)),
        }),
{
    match record {
        None => {
            if follow {
                JournalStep::Wait
            } else {
                JournalStep::Stop
            }
        },
        Some(rec) => {
            let ghost fm = spec_field_text_seq(rec.fields@, 0);
            proof {
                lemma_spec_field_text_seq(rec.fields@, 0);
            }
            let mut data: Vec<(String, Value)> = Vec::new();
            let mut i: usize = 0;
            let n = rec.fields.len();
            while i < n
                invariant
                    i <= n,
                    n == rec.fields@.len(),
                    data@.len() == i as int,
                    fm == spec_field_text_seq(rec.fields@, 0),
                    fm.len() == n,
                    forall|j: int|
                        0 <= j < n ==> #[trigger] fm[j] == (rec.fields@[j].0@, rec.fields@[j].1@),
                    forall|j: int|
                        0 <= j < i ==> (#[trigger] data@[j].0)@ == fm[j].0 && spec_value(data@[j].1)
                            == SpecValue::String(fm[j].1),
                decreases n - i,
            {
                data.push((rec.fields[i].0.clone(), Value::String(rec.fields[i].1.clone())));
                i = i + 1;
            }
            let d = Value::Struct(data);
            proof {
                crate::value::lemma_spec_field_seq(data@, 0);
                assert(spec_field_seq(data@, 0) =~= Seq::new(
                    fm.len(),
                    |j: int| (fm[j].0, SpecValue::String(fm[j].1)),
                ));
            }
            JournalStep::Emit(Value::Time(rec.timestamp_micros), d)
        },
    }
}

/// Everything the journal loop needs decided up front: which files to
/// open, where to seek, and the match filters, in order.
pub struct JournalPlan {
    pub files: JournalFiles,
    pub seek_usec: Option<u64>,
    pub filters: Vec<(String, String)>,
}

/// Turns the parsed configuration into a plan: the file choice from the
/// skip flags, the seek position from a time value (any other seek value
/// is rejected), and the filters as given.
pub fn journal_plan(cfg: &JournalSignature) -> (r: Result<JournalPlan, JobError>)
    ensures
        (match r {
            Ok(plan) => {
                &&& !(cfg.skip_system_files && cfg.skip_user_files)
                &&& (match cfg.seek {
                    Option::Some(v) => (v@ matches SpecValue::Time(t) && t >= 0 && (
                    plan.seek_usec matches Some(u) && u as int == t)),
                    Option::None => plan.seek_usec is None,
                })
                &&& spec_field_text_seq(plan.filters@, 0) == spec_field_text_seq(cfg.filters@, 0)
            },
            Err(e) => {
                ||| (cfg.skip_system_files && cfg.skip_user_files && e.message@
                    == "No files specified"@)
                ||| (match cfg.seek {
                    Option::Some(v) => !(v@ is Time) && e.message@
                        == "Don't know how to seek to this value"@ || (v@ matches SpecValue::Time(
                        t,
                    ) && t < 0 && e.message@ == "Time overflow"@),
                    Option::None => false,
                })
            },
        }),
{
    let files = match parse_files(cfg) {
        Ok(f) => f,
        Err(e) => {
            return Err(e);
        },
    };
    let seek_usec: Option<u64> = match &cfg.seek {
        Some(Value::Time(tm)) => {
            match usec_since_epoch(*tm) {
                Ok(u) => Some(u),
                Err(e) => {
                    return Err(e);
                },
            }
        },
        Some(_) => {
            return Err(argument_error("Don't know how to seek to this value"));
        },
        None => None,
    };
    let ghost fm = spec_field_text_seq(cfg.filters@, 0);
    proof {
        lemma_spec_field_text_seq(cfg.filters@, 0);
    }
    let mut filters: Vec<(String, String)> = Vec::new();
    let mut i: usize = 0;
    let n = cfg.filters.len();
    while i < n
        invariant
            i <= n,
            n == cfg.filters@.len(),
            filters@.len() == i as int,
            fm == spec_field_text_seq(cfg.filters@, 0),
            fm.len() == n,
            forall|j: int|
                0 <= j < n ==> #[trigger] fm[j] == (cfg.filters@[j].0@, cfg.filters@[j].1@),
            forall|j: int|
                0 <= j < i ==> (#[trigger] filters@[j].0)@ == fm[j].0 && filters@[j].1@ == fm[j].1,
        decreases n - i,
    {
        filters.push((cfg.filters[i].0.clone(), cfg.filters[i].1.clone()));
        i = i + 1;
    }
    proof {
        lemma_spec_field_text_seq(filters@, 0);
        assert(spec_field_text_seq(filters@, 0) =~= fm);
    }
    Ok(JournalPlan { files, seek_usec, filters })
}

/// The journal command's static signature: the five flags, the optional
/// seek value, and the named filter map.
pub fn journal_signature() -> (r: CommandSignature) {
    let mut arguments: Vec<ArgumentDescription> = Vec::new();
    arguments.push(flag_description("follow"));
    arguments.push(flag_description("skip_system_files"));
    arguments.push(flag_description("skip_user_files"));
    arguments.push(flag_description("runtime_only"));
    arguments.push(flag_description("local_only"));
    arguments.push(
        ArgumentDescription {
            name: "seek".to_owned(),
            value_type: ValueType::Any,
            unnamed: false,
            named: false,
            optional: true,
            multiple: false,
            allowed: Vec::new(),
            default: None,
        },
    );
    arguments.push(
        ArgumentDescription {
            name: "filters".to_owned(),
            value_type: ValueType::String,
            unnamed: false,
            named: true,
            optional: false,
            multiple: false,
            allowed: Vec::new(),
            default: None,
        },
    );
    CommandSignature { arguments }
}

fn flag_description(name: &str) -> (r: ArgumentDescription)
    ensures
        r@.name == name@,
        r@.value_type == ValueType::Bool,
        !r@.unnamed,
{
    ArgumentDescription {
        name: name.to_owned(),
        value_type: ValueType::Bool,
        unnamed: false,
        named: false,
        optional: false,
        multiple: false,
        allowed: Vec::new(),
        default: Some(Value::Bool(false)),
    }
}

/// Declares the `systemd` namespace in the given scope, holding the
/// journal command.
pub fn declare(root: &mut Scope) -> (r: Result<(), JobError>)
    ensures
        r is Ok,
        final(root)@.len() == old(root)@.len() + 1,
        final(root)@.last().0 == "systemd"@,
        final(root)@.last().1 matches SpecValue::Struct(fields) && fields.len() == 1
            && fields[0].0 == "journal"@ && fields[0].1 is Command,
        forall|j: int| 0 <= j < old(root)@.len() ==> final(root)@[j] == old(root)@[j],
{
    let mut members: Vec<(String, Value)> = Vec::new();
    members.push(("journal".to_owned(), Value::Command(journal_signature())));
    let ns = Value::Struct(members);
    proof {
        crate::value::lemma_spec_field_seq(ns->Struct_0@, 0);
    }
    root.declare("systemd", ns);
    Ok(())
}

} // verus!
