//! The command language: decoded packet payloads to typed commands.

use vstd::prelude::*;
use crate::error::GdbServerError;
use crate::hex::{decode_hex_pairs, decode_pairs, parse_hex_i32, parse_hex_u32, parse_hex_u64, parse_i32, parse_unsigned};
use crate::text::{copy_range, equals, field_end, find_from, is_prefix, lit, rfind, rindex_of, starts_with, strip_all, strip_all_start};

verus! {

/// Kind of a breakpoint or watchpoint, as the digit after `Z` or `z` gives it.
#[derive(Debug, Clone, Copy, PartialEq, Eq, Structural)]
pub enum BreakPointType {
    BreakSoft,
    BreakHard,
    WatchWrite,
    WatchRead,
    WatchAccess,
}

/// The kind that a field of exactly one digit `0` to `4` names.
pub open spec fn breakpoint_kind(r: Seq<u8>) -> Option<BreakPointType> {
    if r.len() != 1 {
        None
    } else if r[0] == 48 {
        Some(BreakPointType::BreakSoft)
    } else if r[0] == 49 {
        Some(BreakPointType::BreakHard)
    } else if r[0] == 50 {
        Some(BreakPointType::WatchWrite)
    } else if r[0] == 51 {
        Some(BreakPointType::WatchRead)
    } else if r[0] == 52 {
        Some(BreakPointType::WatchAccess)
    } else {
        None
    }
}

impl BreakPointType {
    pub fn from_str(r: &[u8]) -> (res: Result<BreakPointType, GdbServerError>)
        ensures
            match breakpoint_kind(r@) {
                Some(k) => res == Ok::<BreakPointType, GdbServerError>(k),
                None => res == Err::<BreakPointType, GdbServerError>(GdbServerError::ParseIntError),
            },
    {
        if r.len() != 1 {
            Err(GdbServerError::ParseIntError)
        } else if r[0] == 48 {
            Ok(BreakPointType::BreakSoft)
        } else if r[0] == 49 {
            Ok(BreakPointType::BreakHard)
        } else if r[0] == 50 {
            Ok(BreakPointType::WatchWrite)
        } else if r[0] == 51 {
            Ok(BreakPointType::WatchRead)
        } else if r[0] == 52 {
            Ok(BreakPointType::WatchAccess)
        } else {
            Err(GdbServerError::ParseIntError)
        }
    }
}

/// One request of the debugger. Text fields hold the payload's bytes.
#[derive(Debug, PartialEq, Eq)]
pub enum GdbCommand {
    Unknown(Vec<u8>),
    /// `qSupported`
    SupportedQueries(Vec<u8>),
    /// `QStartNoAckMode`
    StartNoAckMode,
    /// `Hg<id>`
    SetCurrentThread(u64),
    /// `Hc<id>`, where the id may be -1
    ContinueThread(i32),
    /// `?`
    LastSignalPacket,
    /// `qfThreadInfo`
    GetThreadInfo,
    /// `qC`
    GetCurrentThreadId,
    /// `qAttached`
    CheckIsAttached,
    /// `g`
    GetRegisters,
    /// `p<reg>`
    GetRegister(u32),
    /// `qSymbol::`
    SymbolsReady,
    /// `m<addr>,<len>`
    ReadMemory(u32, u32),
    /// `vCont?`
    VContQuery,
    /// `vCont;c`
    VContContinue,
    /// `vCont;C...`
    VContContinueFromSignal(Vec<u8>),
    /// `vCont;s...`
    VContStepFromSignal(Vec<u8>),
    /// `c`
    Continue,
    /// `s`
    Step,
    /// The out-of-band interrupt byte
    Interrupt,
    /// `qRcmd,<hex pairs>`, holding the decoded bytes
    MonitorCommand(Vec<u8>),
    /// `Z<type>,<addr>,<len>`
    AddBreakpoint(BreakPointType, u32, u32),
    /// `z<type>,<addr>,<len>`
    RemoveBreakpoint(BreakPointType, u32, u32),
    /// `qOffsets`
    GetOffsets,
    /// `qXfer:features:read:<name>:<offset>,<len>`
    ReadFeature(Vec<u8>, u32, u32),
    /// `qXfer:threads:read::<offset>,<len>`
    ReadThreads(u32, u32),
}

/// A command with its text fields as byte sequences.
pub enum CommandView {
    Unknown(Seq<u8>),
    SupportedQueries(Seq<u8>),
    StartNoAckMode,
    SetCurrentThread(u64),
    ContinueThread(i32),
    LastSignalPacket,
    GetThreadInfo,
    GetCurrentThreadId,
    CheckIsAttached,
    GetRegisters,
    GetRegister(u32),
    SymbolsReady,
    ReadMemory(u32, u32),
    VContQuery,
    VContContinue,
    VContContinueFromSignal(Seq<u8>),
    VContStepFromSignal(Seq<u8>),
    Continue,
    Step,
    Interrupt,
    MonitorCommand(Seq<u8>),
    AddBreakpoint(BreakPointType, u32, u32),
    RemoveBreakpoint(BreakPointType, u32, u32),
    GetOffsets,
    ReadFeature(Seq<u8>, u32, u32),
    ReadThreads(u32, u32),
}

impl View for GdbCommand {
    type V = CommandView;

    open spec fn view(&self) -> CommandView {
        match self {
            GdbCommand::Unknown(t) => CommandView::Unknown(t@),
            GdbCommand::SupportedQueries(t) => CommandView::SupportedQueries(t@),
            GdbCommand::StartNoAckMode => CommandView::StartNoAckMode,
            GdbCommand::SetCurrentThread(i) => CommandView::SetCurrentThread(*i),
            GdbCommand::ContinueThread(i) => CommandView::ContinueThread(*i),
            GdbCommand::LastSignalPacket => CommandView::LastSignalPacket,
            GdbCommand::GetThreadInfo => CommandView::GetThreadInfo,
            GdbCommand::GetCurrentThreadId => CommandView::GetCurrentThreadId,
            GdbCommand::CheckIsAttached => CommandView::CheckIsAttached,
            GdbCommand::GetRegisters => CommandView::GetRegisters,
            GdbCommand::GetRegister(r) => CommandView::GetRegister(*r),
            GdbCommand::SymbolsReady => CommandView::SymbolsReady,
            GdbCommand::ReadMemory(a, l) => CommandView::ReadMemory(*a, *l),
            GdbCommand::VContQuery => CommandView::VContQuery,
            GdbCommand::VContContinue => CommandView::VContContinue,
            GdbCommand::VContContinueFromSignal(t) => CommandView::VContContinueFromSignal(t@),
            GdbCommand::VContStepFromSignal(t) => CommandView::VContStepFromSignal(t@),
            GdbCommand::Continue => CommandView::Continue,
            GdbCommand::Step => CommandView::Step,
            GdbCommand::Interrupt => CommandView::Interrupt,
            GdbCommand::MonitorCommand(t) => CommandView::MonitorCommand(t@),
            GdbCommand::AddBreakpoint(k, a, l) => CommandView::AddBreakpoint(*k, *a, *l),
            GdbCommand::RemoveBreakpoint(k, a, l) => CommandView::RemoveBreakpoint(*k, *a, *l),
            GdbCommand::GetOffsets => CommandView::GetOffsets,
            GdbCommand::ReadFeature(n, o, l) => CommandView::ReadFeature(n@, *o, *l),
            GdbCommand::ReadThreads(o, l) => CommandView::ReadThreads(*o, *l),
        }
    }
}

pub open spec fn result_view(r: Result<GdbCommand, GdbServerError>) -> Result<CommandView, GdbServerError> {
    match r {
        Ok(c) => Ok(c@),
        Err(e) => Err(e),
    }
}

pub open spec fn parse_error<T>() -> Result<T, GdbServerError> {
    Err(GdbServerError::ParseIntError)
}

pub open spec fn hex_u32(s: Seq<u8>) -> Option<u32> {
    match parse_unsigned(s, u32::MAX as nat) {
        Some(v) => Some(v as u32),
        None => None,
    }
}

/// `<a>,<b>` with two unsigned 32-bit hex numbers; later fields are ignored.
pub open spec fn parse_pair(s: Seq<u8>) -> Result<(u32, u32), GdbServerError> {
    let e0 = field_end(s, 0);
    if e0 >= s.len() {
        parse_error()
    } else {
        let e1 = field_end(s, e0 + 1);
        match (hex_u32(s.subrange(0, e0)), hex_u32(s.subrange(e0 + 1, e1))) {
            (Some(a), Some(b)) => Ok((a, b)),
            _ => parse_error(),
        }
    }
}

/// `<type>,<addr>,<len>`; later fields are ignored.
pub open spec fn parse_breakpoint(s: Seq<u8>) -> Result<(BreakPointType, u32, u32), GdbServerError> {
    let e0 = field_end(s, 0);
    if e0 >= s.len() {
        parse_error()
    } else {
        let e1 = field_end(s, e0 + 1);
        if e1 >= s.len() {
            parse_error()
        } else {
            let e2 = field_end(s, e1 + 1);
            match (
                breakpoint_kind(s.subrange(0, e0)),
                hex_u32(s.subrange(e0 + 1, e1)),
                hex_u32(s.subrange(e1 + 1, e2)),
            ) {
                (Some(k), Some(a), Some(l)) => Ok((k, a, l)),
                _ => parse_error(),
            }
        }
    }
}

/// `<name>:<offset>,<len>`, the name being all before the last colon.
pub open spec fn parse_feature(s: Seq<u8>) -> Result<CommandView, GdbServerError> {
    let j = rindex_of(s, 58);
    if j < 0 {
        parse_error()
    } else {
        match parse_pair(s.subrange(j + 1, s.len() as int)) {
            Ok((o, l)) => Ok(CommandView::ReadFeature(s.subrange(0, j), o, l)),
            Err(e) => Err(e),
        }
    }
}

/// The command grammar, tried in this order.
pub open spec fn parse_payload(p: Seq<u8>) -> Result<CommandView, GdbServerError> {
    if p == lit("qSupported") || is_prefix(lit("qSupported:"), p) {
        Ok(CommandView::SupportedQueries(p))
    } else if p == lit("QStartNoAckMode") {
        Ok(CommandView::StartNoAckMode)
    } else if p == lit("qAttached") {
        Ok(CommandView::CheckIsAttached)
    } else if p == lit("qOffsets") {
        Ok(CommandView::GetOffsets)
    } else if is_prefix(lit("qXfer:features:read:"), p) {
        parse_feature(strip_all(p, lit("qXfer:features:read:")))
    } else if is_prefix(lit("qXfer:threads:read::"), p) {
        match parse_pair(strip_all(p, lit("qXfer:threads:read::"))) {
            Ok((o, l)) => Ok(CommandView::ReadThreads(o, l)),
            Err(e) => Err(e),
        }
    } else if is_prefix(lit("Z"), p) {
        match parse_breakpoint(strip_all(p, lit("Z"))) {
            Ok((k, a, l)) => Ok(CommandView::AddBreakpoint(k, a, l)),
            Err(e) => Err(e),
        }
    } else if is_prefix(lit("z"), p) {
        match parse_breakpoint(strip_all(p, lit("z"))) {
            Ok((k, a, l)) => Ok(CommandView::RemoveBreakpoint(k, a, l)),
            Err(e) => Err(e),
        }
    } else if is_prefix(lit("qRcmd,"), p) {
        Ok(CommandView::MonitorCommand(decode_pairs(strip_all(p, lit("qRcmd,")))))
    } else if p == lit("g") {
        Ok(CommandView::GetRegisters)
    } else if p == lit("c") {
        Ok(CommandView::Continue)
    } else if p == lit("s") {
        Ok(CommandView::Step)
    } else if is_prefix(lit("m"), p) {
        match parse_pair(strip_all(p, lit("m"))) {
            Ok((a, l)) => Ok(CommandView::ReadMemory(a, l)),
            Err(e) => Err(e),
        }
    } else if is_prefix(lit("p"), p) {
        // Only a leading `r` is stripped, so the `p` itself reaches the number.
        match hex_u32(strip_all(p, lit("r"))) {
            Some(r) => Ok(CommandView::GetRegister(r)),
            None => parse_error(),
        }
    } else if is_prefix(lit("Hg"), p) {
        match parse_unsigned(strip_all(p, lit("Hg")), u64::MAX as nat) {
            Some(t) => Ok(CommandView::SetCurrentThread(t as u64)),
            None => parse_error(),
        }
    } else if is_prefix(lit("Hc"), p) {
        match parse_i32(strip_all(p, lit("Hc"))) {
            Some(t) => Ok(CommandView::ContinueThread(t as i32)),
            None => parse_error(),
        }
    } else if p == lit("qC") {
        Ok(CommandView::GetCurrentThreadId)
    } else if p == lit("?") {
        Ok(CommandView::LastSignalPacket)
    } else if p == lit("qfThreadInfo") {
        Ok(CommandView::GetThreadInfo)
    } else if p == lit("vCont?") {
        Ok(CommandView::VContQuery)
    } else if p == lit("vCont;c") {
        Ok(CommandView::VContContinue)
    } else if is_prefix(lit("vCont;C"), p) {
        Ok(CommandView::VContContinueFromSignal(strip_all(p, lit("vCont;C"))))
    } else if is_prefix(lit("vCont;s"), p) {
        Ok(CommandView::VContStepFromSignal(strip_all(p, lit("vCont;s"))))
    } else if p == lit("qSymbol::") {
        Ok(CommandView::SymbolsReady)
    } else {
        Ok(CommandView::Unknown(p))
    }
}

pub fn hex_field_u32(s: &[u8]) -> (r: Result<u32, GdbServerError>)
    ensures
        match hex_u32(s@) {
            Some(v) => r == Ok::<u32, GdbServerError>(v),
            None => r == Err::<u32, GdbServerError>(GdbServerError::ParseIntError),
        },
{
    match parse_hex_u32(s) {
        Some(v) => Ok(v),
        None => Err(GdbServerError::ParseIntError),
    }
}

/// Reads `<a>,<b>` from `s`.
pub fn read_pair(s: &[u8]) -> (r: Result<(u32, u32), GdbServerError>)
    ensures
        r == parse_pair(s@),
{
    let e0 = find_from(s, 0, 44);
    if e0 >= s.len() {
        return Err(GdbServerError::ParseIntError);
    }
    let e1 = find_from(s, e0 + 1, 44);
    let a = hex_field_u32(vstd::slice::slice_subrange(s, 0, e0));
    let b = hex_field_u32(vstd::slice::slice_subrange(s, e0 + 1, e1));
    match (a, b) {
        (Ok(a), Ok(b)) => Ok((a, b)),
        _ => Err(GdbServerError::ParseIntError),
    }
}

/// Reads `<type>,<addr>,<len>` from `s`.
pub fn read_breakpoint(s: &[u8]) -> (r: Result<(BreakPointType, u32, u32), GdbServerError>)
    ensures
        r == parse_breakpoint(s@),
{
    let e0 = find_from(s, 0, 44);
    if e0 >= s.len() {
        return Err(GdbServerError::ParseIntError);
    }
    let e1 = find_from(s, e0 + 1, 44);
    if e1 >= s.len() {
        return Err(GdbServerError::ParseIntError);
    }
    let e2 = find_from(s, e1 + 1, 44);
    let k = BreakPointType::from_str(vstd::slice::slice_subrange(s, 0, e0));
    let a = hex_field_u32(vstd::slice::slice_subrange(s, e0 + 1, e1));
    let l = hex_field_u32(vstd::slice::slice_subrange(s, e1 + 1, e2));
    match (k, a, l) {
        (Ok(k), Ok(a), Ok(l)) => Ok((k, a, l)),
        _ => Err(GdbServerError::ParseIntError),
    }
}

/// Reads `<name>:<offset>,<len>` from `s`.
pub fn read_feature(s: &[u8]) -> (r: Result<GdbCommand, GdbServerError>)
    ensures
        result_view(r) == parse_feature(s@),
{
    match rfind(s, 58) {
        None => Err(GdbServerError::ParseIntError),
        Some(j) => {
            let n = s.len();
            match read_pair(vstd::slice::slice_subrange(s, j + 1, n)) {
                Ok((o, l)) => Ok(GdbCommand::ReadFeature(copy_range(s, 0, j), o, l)),
                Err(e) => Err(e),
            }
        },
    }
}

/// What is left of `s` once every leading `pre` is removed.
pub fn strip<'a>(s: &'a [u8], pre: &[u8]) -> (r: &'a [u8])
    ensures
        r@ == strip_all(s@, pre@),
{
    let start = strip_all_start(s, pre);
    vstd::slice::slice_subrange(s, start, s.len())
}

/// Parses a payload that has been decoded to text.
pub fn parse_command(p: &[u8]) -> (r: Result<GdbCommand, GdbServerError>)
    ensures
        result_view(r) == parse_payload(p@),
{
    assert(p@.subrange(0, p@.len() as int) =~= p@);
    if equals(p, "qSupported".as_bytes()) || starts_with(p, "qSupported:".as_bytes()) {
        Ok(GdbCommand::SupportedQueries(copy_range(p, 0, p.len())))
    } else if equals(p, "QStartNoAckMode".as_bytes()) {
        Ok(GdbCommand::StartNoAckMode)
    } else if equals(p, "qAttached".as_bytes()) {
        Ok(GdbCommand::CheckIsAttached)
    } else if equals(p, "qOffsets".as_bytes()) {
        Ok(GdbCommand::GetOffsets)
    } else if starts_with(p, "qXfer:features:read:".as_bytes()) {
        read_feature(strip(p, "qXfer:features:read:".as_bytes()))
    } else if starts_with(p, "qXfer:threads:read::".as_bytes()) {
        match read_pair(strip(p, "qXfer:threads:read::".as_bytes())) {
            Ok((o, l)) => Ok(GdbCommand::ReadThreads(o, l)),
            Err(e) => Err(e),
        }
    } else if starts_with(p, "Z".as_bytes()) {
        match read_breakpoint(strip(p, "Z".as_bytes())) {
            Ok((k, a, l)) => Ok(GdbCommand::AddBreakpoint(k, a, l)),
            Err(e) => Err(e),
        }
    } else if starts_with(p, "z".as_bytes()) {
        match read_breakpoint(strip(p, "z".as_bytes())) {
            Ok((k, a, l)) => Ok(GdbCommand::RemoveBreakpoint(k, a, l)),
            Err(e) => Err(e),
        }
    } else if starts_with(p, "qRcmd,".as_bytes()) {
        Ok(GdbCommand::MonitorCommand(decode_hex_pairs(strip(p, "qRcmd,".as_bytes()))))
    } else if equals(p, "g".as_bytes()) {
        Ok(GdbCommand::GetRegisters)
    } else if equals(p, "c".as_bytes()) {
        Ok(GdbCommand::Continue)
    } else if equals(p, "s".as_bytes()) {
        Ok(GdbCommand::Step)
    } else if starts_with(p, "m".as_bytes()) {
        match read_pair(strip(p, "m".as_bytes())) {
            Ok((a, l)) => Ok(GdbCommand::ReadMemory(a, l)),
            Err(e) => Err(e),
        }
    } else if starts_with(p, "p".as_bytes()) {
        match hex_field_u32(strip(p, "r".as_bytes())) {
            Ok(r) => Ok(GdbCommand::GetRegister(r)),
            Err(e) => Err(e),
        }
    } else if starts_with(p, "Hg".as_bytes()) {
        match parse_hex_u64(strip(p, "Hg".as_bytes())) {
            Some(t) => Ok(GdbCommand::SetCurrentThread(t)),
            None => Err(GdbServerError::ParseIntError),
        }
    } else if starts_with(p, "Hc".as_bytes()) {
        match parse_hex_i32(strip(p, "Hc".as_bytes())) {
            Some(t) => Ok(GdbCommand::ContinueThread(t)),
            None => Err(GdbServerError::ParseIntError),
        }
    } else if equals(p, "qC".as_bytes()) {
        Ok(GdbCommand::GetCurrentThreadId)
    } else if equals(p, "?".as_bytes()) {
        Ok(GdbCommand::LastSignalPacket)
    } else if equals(p, "qfThreadInfo".as_bytes()) {
        Ok(GdbCommand::GetThreadInfo)
    } else if equals(p, "vCont?".as_bytes()) {
        Ok(GdbCommand::VContQuery)
    } else if equals(p, "vCont;c".as_bytes()) {
        Ok(GdbCommand::VContContinue)
    } else if starts_with(p, "vCont;C".as_bytes()) {
        Ok(GdbCommand::VContContinueFromSignal(vstd::slice::slice_to_vec(strip(p, "vCont;C".as_bytes()))))
    } else if starts_with(p, "vCont;s".as_bytes()) {
        Ok(GdbCommand::VContStepFromSignal(vstd::slice::slice_to_vec(strip(p, "vCont;s".as_bytes()))))
    } else if equals(p, "qSymbol::".as_bytes()) {
        Ok(GdbCommand::SymbolsReady)
    } else {
        Ok(GdbCommand::Unknown(copy_range(p, 0, p.len())))
    }
}

/// What `String::from_utf8_lossy` makes of a byte sequence, as UTF-8 bytes.
pub uninterp spec fn utf8_lossy(b: Seq<u8>) -> Seq<u8>;

/// Relies on `String::from_utf8_lossy`: the bytes of the text it decodes,
/// with each invalid sequence replaced, which depends on the input alone.
#[verifier::external_body]
fn lossy_text(b: &[u8]) -> (r: Vec<u8>)
    ensures
        r@ == utf8_lossy(b@),
{
    String::from_utf8_lossy(b).into_owned().into_bytes()
}

/// Decodes a raw packet payload permissively to text, then parses it.
pub fn packet_to_command(pkt: &[u8]) -> (r: Result<GdbCommand, GdbServerError>)
    ensures
        result_view(r) == parse_payload(utf8_lossy(pkt@)),
{
    let text = lossy_text(pkt);
    parse_command(text.as_slice())
}

} // verus!
