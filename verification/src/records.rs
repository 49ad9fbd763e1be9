use vstd::prelude::*;

use crate::text::{decimal, law_decimal_parses_back, parse_u32, parse_u32_spec};
use crate::text_map::{text_or_empty, FieldMap};

verus! {

/// The target of the records that the bindings emit themselves; they are kept away
/// from the log stream so that forwarding a record never logs again.
pub const BINDING_LOG_TARGET: &'static str = "breez_sdk_bindings::uniffi_binding";

/// The field that holds an event's message.
pub const MESSAGE_FIELD: &'static str = "message";

/// The field that holds the target of a record bridged from the `log` facade.
pub const TARGET_FIELD: &'static str = "log.target";

/// The field that holds the module path of a bridged record.
pub const MODULE_PATH_FIELD: &'static str = "log.module_path";

/// The field that holds the source file of a bridged record.
pub const FILE_FIELD: &'static str = "log.file";

/// The field that holds the source line of a bridged record.
pub const LINE_FIELD: &'static str = "log.line";

/// How severe a record is, from the most severe to the most verbose.
#[derive(Clone, Copy, PartialEq, Eq, Structural, Debug)]
pub enum LogLevel {
    Error,
    Warn,
    Info,
    Debug,
    Trace,
}

/// The rank of a level: `Error` is 1 and each more verbose level is one more.
pub open spec fn verbosity(level: LogLevel) -> nat {
    match level {
        LogLevel::Error => 1,
        LogLevel::Warn => 2,
        LogLevel::Info => 3,
        LogLevel::Debug => 4,
        LogLevel::Trace => 5,
    }
}

/// The upper-case name of a level.
pub open spec fn level_name(level: LogLevel) -> Seq<char> {
    match level {
        LogLevel::Error => seq!['E', 'R', 'R', 'O', 'R'],
        LogLevel::Warn => seq!['W', 'A', 'R', 'N'],
        LogLevel::Info => seq!['I', 'N', 'F', 'O'],
        LogLevel::Debug => seq!['D', 'E', 'B', 'U', 'G'],
        LogLevel::Trace => seq!['T', 'R', 'A', 'C', 'E'],
    }
}

impl LogLevel {
    /// The upper-case name of the level.
    pub fn as_str(&self) -> (r: &'static str)
        ensures
            r@ == level_name(*self),
    {
        proof {
            reveal_strlit("ERROR");
            reveal_strlit("WARN");
            reveal_strlit("INFO");
            reveal_strlit("DEBUG");
            reveal_strlit("TRACE");
        }
        match self {
            LogLevel::Error => "ERROR",
            LogLevel::Warn => "WARN",
            LogLevel::Info => "INFO",
            LogLevel::Debug => "DEBUG",
            LogLevel::Trace => "TRACE",
        }
    }

    /// Is this level at most as verbose as `other`?
    pub fn at_most(&self, other: &LogLevel) -> (r: bool)
        ensures
            r == (verbosity(*self) <= verbosity(*other)),
    {
        self.rank() <= other.rank()
    }

    fn rank(&self) -> (r: u8)
        ensures
            r == verbosity(*self),
    {
        match self {
            LogLevel::Error => 1,
            LogLevel::Warn => 2,
            LogLevel::Info => 3,
            LogLevel::Debug => 4,
            LogLevel::Trace => 5,
        }
    }
}

/// What the bindings hand to the application's log stream.
pub struct LogEntry {
    pub line: String,
    pub level: String,
}

/// What the bindings hand to a node's own logger.
pub struct LogMessage {
    pub level: LogLevel,
    pub message: String,
    pub module_name: String,
    pub file: String,
    pub line: u32,
}

/// What the bindings hand to the global `log` logger when an event belongs to no node.
pub struct GlobalRecord {
    pub target: String,
    pub level: LogLevel,
    pub message: String,
    pub line: Option<u32>,
    pub file: String,
    pub module_name: String,
}

/// The line number that an event's fields carry, if its line field parses as a `u32`.
pub open spec fn line_number(fields: Map<Seq<char>, String>) -> Option<u32> {
    if fields.dom().contains(LINE_FIELD@) {
        parse_u32_spec(fields[LINE_FIELD@]@)
    } else {
        None
    }
}

/// Does the log stream take a record of `level` from `target`?
/// Every level passes; only the bindings' own records are held back.
pub fn record_enabled(level: LogLevel, target: &str) -> (r: bool)
    ensures
        r == (verbosity(level) <= verbosity(LogLevel::Trace) && target@ != BINDING_LOG_TARGET@),
{
    let own: String = BINDING_LOG_TARGET.to_owned();
    let given: String = target.to_owned();
    level.at_most(&LogLevel::Trace) && !(given == own)
}

/// The entry that the log stream receives for a record with message `message` at `level`.
pub fn log_entry(message: String, level: LogLevel) -> (r: LogEntry)
    ensures
        r.line@ == message@,
        r.level@ == level_name(level),
{
    LogEntry { line: message, level: level.as_str().to_owned() }
}

/// What the log stream receives for a record from `target` with message `message` at
/// `level`: nothing when the stream does not take the record (the bindings' own records),
/// else the entry with the record's message and the name of its level.
pub fn stream_entry(message: String, level: LogLevel, target: &str) -> (r: Option<LogEntry>)
    ensures
        r is None <==> !(verbosity(level) <= verbosity(LogLevel::Trace) && target@ != BINDING_LOG_TARGET@),
        r matches Some(e) ==> e.line@ == message@ && e.level@ == level_name(level),
{
    if record_enabled(level, target) {
        Some(log_entry(message, level))
    } else {
        None
    }
}

/// The line number of an event, when its line field holds one.
pub fn event_line(fields: &FieldMap) -> (r: Option<u32>)
    ensures
        r == line_number(fields@),
{
    match fields.get(LINE_FIELD) {
        Some(text) => parse_u32(text.as_str()),
        None => None,
    }
}

/// Is `msg` the message that a node's logger receives for an event with these fields?
/// Level `Info`, each text field copied (empty when absent), and the line number
/// when the line field parses, else 0.
pub open spec fn is_node_message(msg: LogMessage, fields: Map<Seq<char>, String>) -> bool {
    &&& msg.level == LogLevel::Info
    &&& msg.message@ == text_or_empty(fields, MESSAGE_FIELD@)
    &&& msg.module_name@ == text_or_empty(fields, MODULE_PATH_FIELD@)
    &&& msg.file@ == text_or_empty(fields, FILE_FIELD@)
    &&& msg.line == match line_number(fields) {
        Some(n) => n,
        None => 0,
    }
}

/// Is `rec` the record that the global logger receives for an event with these fields?
/// Level `Info`, each text field copied (empty when absent), and the line number
/// only when the line field parses.
pub open spec fn is_global_record(rec: GlobalRecord, fields: Map<Seq<char>, String>) -> bool {
    &&& rec.level == LogLevel::Info
    &&& rec.target@ == text_or_empty(fields, TARGET_FIELD@)
    &&& rec.message@ == text_or_empty(fields, MESSAGE_FIELD@)
    &&& rec.module_name@ == text_or_empty(fields, MODULE_PATH_FIELD@)
    &&& rec.file@ == text_or_empty(fields, FILE_FIELD@)
    &&& rec.line == line_number(fields)
}

/// The message that a node's logger receives for an event with these fields.
pub fn convert_to_log_message(fields: &FieldMap) -> (r: LogMessage)
    ensures
        is_node_message(r, fields@),
        r.level == LogLevel::Info,
        fields@.dom().contains(MESSAGE_FIELD@) ==> r.message@ == fields@[MESSAGE_FIELD@]@,
        !fields@.dom().contains(MESSAGE_FIELD@) ==> r.message@.len() == 0,
        fields@.dom().contains(MODULE_PATH_FIELD@) ==> r.module_name@ == fields@[MODULE_PATH_FIELD@]@,
        !fields@.dom().contains(MODULE_PATH_FIELD@) ==> r.module_name@.len() == 0,
        fields@.dom().contains(FILE_FIELD@) ==> r.file@ == fields@[FILE_FIELD@]@,
        !fields@.dom().contains(FILE_FIELD@) ==> r.file@.len() == 0,
        !fields@.dom().contains(LINE_FIELD@) ==> r.line == 0,
{
    let line = match event_line(fields) {
        Some(n) => n,
        None => 0,
    };
    LogMessage {
        level: LogLevel::Info,
        message: fields.text_or_empty(MESSAGE_FIELD),
        module_name: fields.text_or_empty(MODULE_PATH_FIELD),
        file: fields.text_or_empty(FILE_FIELD),
        line,
    }
}

/// The record that the global logger receives for an event with these fields.
pub fn global_record(fields: &FieldMap) -> (r: GlobalRecord)
    ensures
        is_global_record(r, fields@),
        r.level == LogLevel::Info,
        fields@.dom().contains(TARGET_FIELD@) ==> r.target@ == fields@[TARGET_FIELD@]@,
        !fields@.dom().contains(TARGET_FIELD@) ==> r.target@.len() == 0,
        fields@.dom().contains(MESSAGE_FIELD@) ==> r.message@ == fields@[MESSAGE_FIELD@]@,
        !fields@.dom().contains(MESSAGE_FIELD@) ==> r.message@.len() == 0,
        fields@.dom().contains(MODULE_PATH_FIELD@) ==> r.module_name@ == fields@[MODULE_PATH_FIELD@]@,
        !fields@.dom().contains(MODULE_PATH_FIELD@) ==> r.module_name@.len() == 0,
        fields@.dom().contains(FILE_FIELD@) ==> r.file@ == fields@[FILE_FIELD@]@,
        !fields@.dom().contains(FILE_FIELD@) ==> r.file@.len() == 0,
        !fields@.dom().contains(LINE_FIELD@) ==> r.line is None,
{
    GlobalRecord {
        target: fields.text_or_empty(TARGET_FIELD),
        level: LogLevel::Info,
        message: fields.text_or_empty(MESSAGE_FIELD),
        line: event_line(fields),
        file: fields.text_or_empty(FILE_FIELD),
        module_name: fields.text_or_empty(MODULE_PATH_FIELD),
    }
}

/// The log stream takes records of every level: the only ones it holds back
/// are the bindings' own.
pub proof fn law_every_level_passes(level: LogLevel)
    ensures
        verbosity(level) <= verbosity(LogLevel::Trace),
{
}

/// Whichever logger an event goes to, it receives the same message, module, file and
/// line: a node's message carries line 0 exactly where the global record carries none.
pub proof fn law_node_and_global_agree(msg: LogMessage, rec: GlobalRecord, fields: Map<Seq<char>, String>)
    requires
        is_node_message(msg, fields),
        is_global_record(rec, fields),
    ensures
        msg.level == rec.level,
        msg.message@ == rec.message@,
        msg.module_name@ == rec.module_name@,
        msg.file@ == rec.file@,
        rec.line is Some ==> msg.line == rec.line->0,
        rec.line is None ==> msg.line == 0,
{
}

/// A line number recorded as an integer is read back as itself, whenever it fits in a `u32`.
pub proof fn law_recorded_line_read_back(fields: Map<Seq<char>, String>, n: u64)
    requires
        n <= u32::MAX,
        fields.dom().contains(LINE_FIELD@),
        fields[LINE_FIELD@]@ == decimal(n as nat),
    ensures
        line_number(fields) == Some(n as u32),
{
    law_decimal_parses_back(n as nat);
}

/// A node's message copies the event's text fields whole: the message, module and file are
/// exactly the texts under their fields, and empty where the field is absent; the line is
/// the number under the line field when it reads as a `u32`, else 0.
pub proof fn law_node_message_copies_fields(msg: LogMessage, fields: Map<Seq<char>, String>)
    requires
        is_node_message(msg, fields),
    ensures
        msg.level == LogLevel::Info,
        fields.dom().contains(MESSAGE_FIELD@) ==> msg.message@ == fields[MESSAGE_FIELD@]@,
        !fields.dom().contains(MESSAGE_FIELD@) ==> msg.message@.len() == 0,
        fields.dom().contains(MODULE_PATH_FIELD@) ==> msg.module_name@ == fields[MODULE_PATH_FIELD@]@,
        !fields.dom().contains(MODULE_PATH_FIELD@) ==> msg.module_name@.len() == 0,
        fields.dom().contains(FILE_FIELD@) ==> msg.file@ == fields[FILE_FIELD@]@,
        !fields.dom().contains(FILE_FIELD@) ==> msg.file@.len() == 0,
        !fields.dom().contains(LINE_FIELD@) ==> msg.line == 0,
        forall|n: u64| #![trigger decimal(n as nat)]
            n <= u32::MAX && fields.dom().contains(LINE_FIELD@) && fields[LINE_FIELD@]@ == decimal(n as nat)
                ==> msg.line == n,
{
    assert forall|n: u64| #![trigger decimal(n as nat)]
        n <= u32::MAX && fields.dom().contains(LINE_FIELD@) && fields[LINE_FIELD@]@ == decimal(n as nat)
            implies msg.line == n by {
        law_decimal_parses_back(n as nat);
    }
}

/// The global record copies the event's text fields whole: the target, message, module and
/// file are exactly the texts under their fields, and empty where the field is absent; the
/// line is the number under the line field when it reads as a `u32`, else none.
pub proof fn law_global_record_copies_fields(rec: GlobalRecord, fields: Map<Seq<char>, String>)
    requires
        is_global_record(rec, fields),
    ensures
        rec.level == LogLevel::Info,
        fields.dom().contains(TARGET_FIELD@) ==> rec.target@ == fields[TARGET_FIELD@]@,
        !fields.dom().contains(TARGET_FIELD@) ==> rec.target@.len() == 0,
        fields.dom().contains(MESSAGE_FIELD@) ==> rec.message@ == fields[MESSAGE_FIELD@]@,
        !fields.dom().contains(MESSAGE_FIELD@) ==> rec.message@.len() == 0,
        fields.dom().contains(MODULE_PATH_FIELD@) ==> rec.module_name@ == fields[MODULE_PATH_FIELD@]@,
        !fields.dom().contains(MODULE_PATH_FIELD@) ==> rec.module_name@.len() == 0,
        fields.dom().contains(FILE_FIELD@) ==> rec.file@ == fields[FILE_FIELD@]@,
        !fields.dom().contains(FILE_FIELD@) ==> rec.file@.len() == 0,
        !fields.dom().contains(LINE_FIELD@) ==> rec.line is None,
        forall|n: u64| #![trigger decimal(n as nat)]
            n <= u32::MAX && fields.dom().contains(LINE_FIELD@) && fields[LINE_FIELD@]@ == decimal(n as nat)
                ==> rec.line == Some(n as u32),
{
    assert forall|n: u64| #![trigger decimal(n as nat)]
        n <= u32::MAX && fields.dom().contains(LINE_FIELD@) && fields[LINE_FIELD@]@ == decimal(n as nat)
            implies rec.line == Some(n as u32) by {
        law_decimal_parses_back(n as nat);
    }
}

/// The target of the global record depends on the target field alone: recording any other
/// field leaves it as it was.
pub proof fn law_target_ignores_other_fields(
    before: GlobalRecord,
    after: GlobalRecord,
    fields: Map<Seq<char>, String>,
    key: Seq<char>,
    value: String,
)
    requires
        key != TARGET_FIELD@,
        is_global_record(before, fields),
        is_global_record(after, fields.insert(key, value)),
    ensures
        after.target@ == before.target@,
{
    law_global_record_copies_fields(before, fields);
    law_global_record_copies_fields(after, fields.insert(key, value));
}

} // verus!
