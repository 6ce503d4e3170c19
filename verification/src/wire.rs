//! The wire format of the protocol, and its verified codec.
//!
//! Every message crosses the transport as one frame: the byte length of the
//! serialised message in eight little-endian bytes, then the message itself.
//! Inside a message, integers are little-endian, enum tags are dense 32-bit
//! discriminants in declaration order, booleans are one byte (0 or 1), and
//! strings and sequences carry their length or count in eight little-endian
//! bytes up front, strings as UTF-8. A change to this layout must bump the
//! version that appears in the pipe names, so that two incompatible sides
//! never shake hands.
use vstd::bytes::*;
use vstd::prelude::*;
use vstd::utf8::*;

use crate::path::{PathModel, PathPrefix, VfsPath};
use crate::protocol::{
    LogLevel, LogMessage, LogMessageModel, Message, MessageModel, ProcessSpawned, StartupInfo,
    StartupInfoModel,
};
use crate::vfs::{
    Mapping, MappingEndModel, MappingFrom, MappingKind, MappingModel, MappingTo, Mappings,
};

verus! {

/// Four little-endian bytes of a 32-bit integer.
pub open spec fn enc_u32(x: u32) -> Seq<u8> {
    spec_u32_to_le_bytes(x)
}

/// Eight little-endian bytes of a 64-bit integer.
pub open spec fn enc_u64(x: u64) -> Seq<u8> {
    spec_u64_to_le_bytes(x)
}

/// One byte holding 0 or 1.
pub open spec fn enc_bool(b: bool) -> Seq<u8> {
    seq![
        if b {
            1u8
        } else {
            0u8
        },
    ]
}

/// A string: its UTF-8 byte length in eight little-endian bytes, then its
/// UTF-8 bytes.
pub open spec fn enc_str(s: Seq<char>) -> Seq<u8> {
    enc_u64(encode_utf8(s).len() as u64) + encode_utf8(s)
}

/// The tag of a path prefix.
pub open spec fn prefix_tag(p: PathPrefix) -> u32 {
    match p {
        PathPrefix::Plain => 0,
        PathPrefix::Nt => 1,
        PathPrefix::Extended => 2,
    }
}

/// The components of a path, back to back.
pub open spec fn enc_components(parts: Seq<Seq<char>>) -> Seq<u8>
    decreases parts.len(),
{
    if parts.len() == 0 {
        Seq::empty()
    } else {
        enc_str(parts.first()) + enc_components(parts.drop_first())
    }
}

/// A path: prefix tag, component count, then the components.
pub open spec fn enc_path(p: PathModel) -> Seq<u8> {
    enc_u32(prefix_tag(p.prefix)) + enc_u64(p.parts.len() as u64) + enc_components(p.parts)
}

/// The tag of a mapping end: `File` or `Folder`.
pub open spec fn end_tag(e: MappingEndModel) -> u32 {
    match e {
        MappingEndModel::File(_) => 0,
        MappingEndModel::Folder(_) => 1,
    }
}

/// The path inside a mapping end.
pub open spec fn end_path(e: MappingEndModel) -> PathModel {
    match e {
        MappingEndModel::File(p) => p,
        MappingEndModel::Folder(p) => p,
    }
}

/// One tagged end of a mapping: its tag, then its path.
pub open spec fn enc_end(e: MappingEndModel) -> Seq<u8> {
    enc_u32(end_tag(e)) + enc_path(end_path(e))
}

/// The tag of a mapping kind.
pub open spec fn kind_tag(k: MappingKind) -> u32 {
    match k {
        MappingKind::Redirect => 0,
        MappingKind::Mount => 1,
    }
}

/// One mapping: kind tag, source end, target end.
pub open spec fn enc_mapping(m: MappingModel) -> Seq<u8> {
    enc_u32(kind_tag(m.kind)) + enc_end(m.from) + enc_end(m.to)
}

/// The rules of a table, back to back.
pub open spec fn enc_mapping_list(ms: Seq<MappingModel>) -> Seq<u8>
    decreases ms.len(),
{
    if ms.len() == 0 {
        Seq::empty()
    } else {
        enc_mapping(ms.first()) + enc_mapping_list(ms.drop_first())
    }
}

/// A mapping table: its rule count, then the rules.
pub open spec fn enc_mappings(ms: Seq<MappingModel>) -> Seq<u8> {
    enc_u64(ms.len() as u64) + enc_mapping_list(ms)
}

/// The startup configuration: three flag bytes, then the mapping table.
pub open spec fn enc_startup(si: StartupInfoModel) -> Seq<u8> {
    enc_bool(si.main_thread_suspended) + enc_bool(si.dont_hook_subprocesses) + enc_bool(
        si.show_console,
    ) + enc_mappings(si.mappings)
}

/// The tag of a log level.
pub open spec fn level_tag(l: LogLevel) -> u32 {
    match l {
        LogLevel::Error => 0,
        LogLevel::Warn => 1,
        LogLevel::Info => 2,
        LogLevel::Debug => 3,
        LogLevel::Trace => 4,
    }
}

/// A log line: level tag, module path, file, line number, text.
pub open spec fn enc_log(lm: LogMessageModel) -> Seq<u8> {
    enc_u32(level_tag(lm.level)) + enc_str(lm.module_name) + enc_str(lm.file) + enc_u32(lm.line)
        + enc_str(lm.message)
}

/// A message: its variant tag, then the payload of the variant.
pub open spec fn enc_message(m: MessageModel) -> Seq<u8> {
    match m {
        MessageModel::StartupInfo(si) => enc_u32(0) + enc_startup(si),
        MessageModel::LogMessage(lm) => enc_u32(1) + enc_log(lm),
        MessageModel::Initialized => enc_u32(2),
        MessageModel::InitializationFailed(s) => enc_u32(3) + enc_str(s),
        MessageModel::ProcessSpawned(pid) => enc_u32(4) + enc_u32(pid),
        MessageModel::ProcessDetach => enc_u32(5),
    }
}

/// A whole frame: the message's byte length in eight little-endian bytes,
/// then the message.
pub open spec fn enc_frame(m: MessageModel) -> Seq<u8> {
    enc_u64(enc_message(m).len() as u64) + enc_message(m)
}

/// Appends a slice of bytes.
fn push_bytes(out: &mut Vec<u8>, bytes: &[u8])
    ensures
        final(out)@ == old(out)@ + bytes@,
{
    let n = bytes.len();
    let mut i: usize = 0;
    while i < n
        invariant
            n == bytes@.len(),
            i <= n,
            out@ == old(out)@ + bytes@.take(i as int),
        decreases n - i,
    {
        out.push(bytes[i]);
        assert(out@ =~= old(out)@ + bytes@.take(i as int + 1));
        i += 1;
    }
    assert(out@ =~= old(out)@ + bytes@);
}

/// Appends the four little-endian bytes of `x`.
fn push_u32(out: &mut Vec<u8>, x: u32)
    ensures
        final(out)@ == old(out)@ + enc_u32(x),
{
    let bytes = u32_to_le_bytes(x);
    push_bytes(out, bytes.as_slice());
}

/// Appends the eight little-endian bytes of `x`.
fn push_u64(out: &mut Vec<u8>, x: u64)
    ensures
        final(out)@ == old(out)@ + enc_u64(x),
{
    let bytes = u64_to_le_bytes(x);
    push_bytes(out, bytes.as_slice());
}

/// Appends one flag byte.
fn push_bool(out: &mut Vec<u8>, b: bool)
    ensures
        final(out)@ == old(out)@ + enc_bool(b),
{
    out.push(
        if b {
            1u8
        } else {
            0u8
        },
    );
    assert(out@ =~= old(out)@ + enc_bool(b));
}

/// Appends a length-prefixed UTF-8 string.
fn push_str(out: &mut Vec<u8>, s: &String)
    ensures
        final(out)@ == old(out)@ + enc_str(s@),
{
    let bytes = s.as_str().as_bytes();
    push_u64(out, bytes.len() as u64);
    push_bytes(out, bytes);
    assert(out@ =~= old(out)@ + enc_str(s@));
}

/// Appends an encoded path.
fn push_path(out: &mut Vec<u8>, p: &VfsPath)
    ensures
        final(out)@ == old(out)@ + enc_path(p@),
{
    let tag: u32 = match p.prefix {
        PathPrefix::Plain => 0,
        PathPrefix::Nt => 1,
        PathPrefix::Extended => 2,
    };
    push_u32(out, tag);
    let n = p.components.len();
    push_u64(out, n as u64);
    let ghost base = out@;
    let mut i: usize = 0;
    while i < n
        invariant
            n == p@.parts.len(),
            i <= n,
            out@ == base + enc_components(p@.parts.take(i as int)),
        decreases n - i,
    {
        push_str(out, &p.components[i]);
        proof {
            lemma_enc_components_snoc(p@.parts, i as int);
            assert(out@ =~= base + enc_components(p@.parts.take(i as int + 1)));
        }
        i += 1;
    }
    assert(p@.parts.take(n as int) =~~= p@.parts);
    assert(out@ =~= old(out)@ + enc_path(p@));
}

/// Appends an encoded source end of a mapping.
fn push_from(out: &mut Vec<u8>, e: &MappingFrom)
    ensures
        final(out)@ == old(out)@ + enc_end(e@),
{
    match e {
        MappingFrom::File(p) => {
            push_u32(out, 0);
            push_path(out, p);
        },
        MappingFrom::Folder(p) => {
            push_u32(out, 1);
            push_path(out, p);
        },
    }
    assert(out@ =~= old(out)@ + enc_end(e@));
}

/// Appends an encoded target end of a mapping.
fn push_to(out: &mut Vec<u8>, e: &MappingTo)
    ensures
        final(out)@ == old(out)@ + enc_end(e@),
{
    match e {
        MappingTo::File(p) => {
            push_u32(out, 0);
            push_path(out, p);
        },
        MappingTo::Folder(p) => {
            push_u32(out, 1);
            push_path(out, p);
        },
    }
    assert(out@ =~= old(out)@ + enc_end(e@));
}

/// Appends an encoded mapping.
fn push_mapping(out: &mut Vec<u8>, m: &Mapping)
    ensures
        final(out)@ == old(out)@ + enc_mapping(m@),
{
    let tag: u32 = match m.kind {
        MappingKind::Redirect => 0,
        MappingKind::Mount => 1,
    };
    push_u32(out, tag);
    push_from(out, &m.from);
    push_to(out, &m.to);
    assert(out@ =~= old(out)@ + enc_mapping(m@));
}

/// Appends an encoded mapping table.
fn push_mappings(out: &mut Vec<u8>, ms: &Mappings)
    ensures
        final(out)@ == old(out)@ + enc_mappings(ms@),
{
    let n = ms.mappings.len();
    push_u64(out, n as u64);
    let ghost base = out@;
    let mut i: usize = 0;
    while i < n
        invariant
            n == ms@.len(),
            i <= n,
            out@ == base + enc_mapping_list(ms@.take(i as int)),
        decreases n - i,
    {
        push_mapping(out, &ms.mappings[i]);
        proof {
            lemma_enc_mapping_list_snoc(ms@, i as int);
            assert(out@ =~= base + enc_mapping_list(ms@.take(i as int + 1)));
        }
        i += 1;
    }
    assert(ms@.take(n as int) =~~= ms@);
    assert(out@ =~= old(out)@ + enc_mappings(ms@));
}

/// Appends an encoded startup configuration.
fn push_startup(out: &mut Vec<u8>, si: &StartupInfo)
    ensures
        final(out)@ == old(out)@ + enc_startup(si@),
{
    push_bool(out, si.main_thread_suspended);
    push_bool(out, si.dont_hook_subprocesses);
    push_bool(out, si.show_console);
    push_mappings(out, &si.mappings);
    assert(out@ =~= old(out)@ + enc_startup(si@));
}

/// Appends an encoded log line.
fn push_log(out: &mut Vec<u8>, lm: &LogMessage)
    ensures
        final(out)@ == old(out)@ + enc_log(lm@),
{
    let tag: u32 = match lm.level {
        LogLevel::Error => 0,
        LogLevel::Warn => 1,
        LogLevel::Info => 2,
        LogLevel::Debug => 3,
        LogLevel::Trace => 4,
    };
    push_u32(out, tag);
    push_str(out, &lm.module_name);
    push_str(out, &lm.file);
    push_u32(out, lm.line);
    push_str(out, &lm.message);
    assert(out@ =~= old(out)@ + enc_log(lm@));
}

/// Serialises one message, without the frame header.
pub fn encode_message(m: &Message) -> (out: Vec<u8>)
    ensures
        out@ == enc_message(m@),
{
    let mut out: Vec<u8> = Vec::new();
    match m {
        Message::StartupInfo(si) => {
            push_u32(&mut out, 0);
            push_startup(&mut out, si);
        },
        Message::LogMessage(lm) => {
            push_u32(&mut out, 1);
            push_log(&mut out, lm);
        },
        Message::Initialized => {
            push_u32(&mut out, 2);
        },
        Message::InitializationFailed(s) => {
            push_u32(&mut out, 3);
            push_str(&mut out, s);
        },
        Message::ProcessSpawned(ps) => {
            push_u32(&mut out, 4);
            push_u32(&mut out, ps.pid);
        },
        Message::ProcessDetach => {
            push_u32(&mut out, 5);
        },
    }
    assert(out@ =~= enc_message(m@));
    out
}

/// Serialises one message as a whole frame: length header, then message.
pub fn encode_frame(m: &Message) -> (out: Vec<u8>)
    ensures
        out@ == enc_frame(m@),
{
    let body = encode_message(m);
    let mut out: Vec<u8> = Vec::new();
    push_u64(&mut out, body.len() as u64);
    push_bytes(&mut out, body.as_slice());
    assert(out@ =~= enc_frame(m@));
    out
}

/// Reads a 32-bit integer: four little-endian bytes.
pub open spec fn dec_u32(b: Seq<u8>, pos: int) -> Option<(u32, int)> {
    if 0 <= pos && pos + 4 <= b.len() {
        Some((spec_u32_from_le_bytes(b.subrange(pos, pos + 4)), pos + 4))
    } else {
        None
    }
}

/// Reads a 64-bit integer: eight little-endian bytes.
pub open spec fn dec_u64(b: Seq<u8>, pos: int) -> Option<(u64, int)> {
    if 0 <= pos && pos + 8 <= b.len() {
        Some((spec_u64_from_le_bytes(b.subrange(pos, pos + 8)), pos + 8))
    } else {
        None
    }
}

/// Reads a flag byte; anything but 0 or 1 is malformed.
pub open spec fn dec_bool(b: Seq<u8>, pos: int) -> Option<(bool, int)> {
    if 0 <= pos && pos + 1 <= b.len() {
        if b[pos] == 0 {
            Some((false, pos + 1))
        } else if b[pos] == 1 {
            Some((true, pos + 1))
        } else {
            None
        }
    } else {
        None
    }
}

/// Reads a length-prefixed UTF-8 string; bytes that are not valid UTF-8 are
/// malformed.
pub open spec fn dec_str(b: Seq<u8>, pos: int) -> Option<(Seq<char>, int)> {
    match dec_u64(b, pos) {
        Some((n, p)) => if p + n <= b.len() {
            let body = b.subrange(p, p + n);
            if valid_utf8(body) {
                Some((decode_utf8(body), p + n))
            } else {
                None
            }
        } else {
            None
        },
        None => None,
    }
}

/// Reads a path prefix tag.
pub open spec fn dec_prefix(b: Seq<u8>, pos: int) -> Option<(PathPrefix, int)> {
    match dec_u32(b, pos) {
        Some((tag, p)) => if tag == 0 {
            Some((PathPrefix::Plain, p))
        } else if tag == 1 {
            Some((PathPrefix::Nt, p))
        } else if tag == 2 {
            Some((PathPrefix::Extended, p))
        } else {
            None
        },
        None => None,
    }
}

/// Reads `n` consecutive components.
pub open spec fn dec_components(b: Seq<u8>, pos: int, n: int) -> Option<(Seq<Seq<char>>, int)>
    decreases n,
{
    if n <= 0 {
        Some((Seq::empty(), pos))
    } else {
        match dec_str(b, pos) {
            Some((s, p)) => match dec_components(b, p, n - 1) {
                Some((rest, p2)) => Some((seq![s] + rest, p2)),
                None => None,
            },
            None => None,
        }
    }
}

/// Reads a path: prefix tag, component count, components.
pub open spec fn dec_path(b: Seq<u8>, pos: int) -> Option<(PathModel, int)> {
    match dec_prefix(b, pos) {
        Some((prefix, p)) => match dec_u64(b, p) {
            Some((n, p2)) => match dec_components(b, p2, n as int) {
                Some((parts, p3)) => Some((PathModel { prefix, parts }, p3)),
                None => None,
            },
            None => None,
        },
        None => None,
    }
}

/// Reads one tagged end of a mapping.
pub open spec fn dec_end(b: Seq<u8>, pos: int) -> Option<(MappingEndModel, int)> {
    match dec_u32(b, pos) {
        Some((tag, p)) => match dec_path(b, p) {
            Some((path, p2)) => if tag == 0 {
                Some((MappingEndModel::File(path), p2))
            } else if tag == 1 {
                Some((MappingEndModel::Folder(path), p2))
            } else {
                None
            },
            None => None,
        },
        None => None,
    }
}

/// Reads one mapping: kind tag, source end, target end.
pub open spec fn dec_mapping(b: Seq<u8>, pos: int) -> Option<(MappingModel, int)> {
    match dec_u32(b, pos) {
        Some((tag, p)) => if tag == 0 || tag == 1 {
            let kind = if tag == 0 {
                MappingKind::Redirect
            } else {
                MappingKind::Mount
            };
            match dec_end(b, p) {
                Some((from, p2)) => match dec_end(b, p2) {
                    Some((to, p3)) => Some((MappingModel { kind, from, to }, p3)),
                    None => None,
                },
                None => None,
            }
        } else {
            None
        },
        None => None,
    }
}

/// Reads `n` consecutive mappings.
pub open spec fn dec_mapping_list(b: Seq<u8>, pos: int, n: int) -> Option<(Seq<MappingModel>, int)>
    decreases n,
{
    if n <= 0 {
        Some((Seq::empty(), pos))
    } else {
        match dec_mapping(b, pos) {
            Some((m, p)) => match dec_mapping_list(b, p, n - 1) {
                Some((rest, p2)) => Some((seq![m] + rest, p2)),
                None => None,
            },
            None => None,
        }
    }
}

/// Reads a mapping table: rule count, then the rules.
pub open spec fn dec_mappings(b: Seq<u8>, pos: int) -> Option<(Seq<MappingModel>, int)> {
    match dec_u64(b, pos) {
        Some((n, p)) => dec_mapping_list(b, p, n as int),
        None => None,
    }
}

/// Reads a startup configuration.
pub open spec fn dec_startup(b: Seq<u8>, pos: int) -> Option<(StartupInfoModel, int)> {
    match dec_bool(b, pos) {
        Some((mts, p)) => match dec_bool(b, p) {
            Some((dhs, p2)) => match dec_bool(b, p2) {
                Some((sc, p3)) => match dec_mappings(b, p3) {
                    Some((ms, p4)) => Some(
                        (
                            StartupInfoModel {
                                main_thread_suspended: mts,
                                dont_hook_subprocesses: dhs,
                                show_console: sc,
                                mappings: ms,
                            },
                            p4,
                        ),
                    ),
                    None => None,
                },
                None => None,
            },
            None => None,
        },
        None => None,
    }
}

/// Reads a log level tag.
pub open spec fn dec_level(b: Seq<u8>, pos: int) -> Option<(LogLevel, int)> {
    match dec_u32(b, pos) {
        Some((tag, p)) => if tag == 0 {
            Some((LogLevel::Error, p))
        } else if tag == 1 {
            Some((LogLevel::Warn, p))
        } else if tag == 2 {
            Some((LogLevel::Info, p))
        } else if tag == 3 {
            Some((LogLevel::Debug, p))
        } else if tag == 4 {
            Some((LogLevel::Trace, p))
        } else {
            None
        },
        None => None,
    }
}

/// Reads a log line.
pub open spec fn dec_log(b: Seq<u8>, pos: int) -> Option<(LogMessageModel, int)> {
    match dec_level(b, pos) {
        Some((level, p)) => match dec_str(b, p) {
            Some((module_name, p2)) => match dec_str(b, p2) {
                Some((file, p3)) => match dec_u32(b, p3) {
                    Some((line, p4)) => match dec_str(b, p4) {
                        Some((message, p5)) => Some(
                            (LogMessageModel { level, module_name, file, line, message }, p5),
                        ),
                        None => None,
                    },
                    None => None,
                },
                None => None,
            },
            None => None,
        },
        None => None,
    }
}

/// Reads one message: variant tag, then the payload of the variant.
pub open spec fn dec_message(b: Seq<u8>, pos: int) -> Option<(MessageModel, int)> {
    match dec_u32(b, pos) {
        Some((tag, p)) => if tag == 0 {
            match dec_startup(b, p) {
                Some((si, p2)) => Some((MessageModel::StartupInfo(si), p2)),
                None => None,
            }
        } else if tag == 1 {
            match dec_log(b, p) {
                Some((lm, p2)) => Some((MessageModel::LogMessage(lm), p2)),
                None => None,
            }
        } else if tag == 2 {
            Some((MessageModel::Initialized, p))
        } else if tag == 3 {
            match dec_str(b, p) {
                Some((s, p2)) => Some((MessageModel::InitializationFailed(s), p2)),
                None => None,
            }
        } else if tag == 4 {
            match dec_u32(b, p) {
                Some((pid, p2)) => Some((MessageModel::ProcessSpawned(pid), p2)),
                None => None,
            }
        } else if tag == 5 {
            Some((MessageModel::ProcessDetach, p))
        } else {
            None
        },
        None => None,
    }
}

/// What the front of a byte stream holds.
#[verifier::ext_equal]
pub ghost enum FrameOutcome {
    /// Not enough bytes for a whole frame yet: if the stream has ended here,
    /// it ended in the middle of a message.
    Truncated,
    /// A complete frame whose bytes do not form one message exactly.
    Malformed,
    /// One decoded message and the total number of bytes it occupied.
    Frame(MessageModel, int),
}

/// Reads one whole frame from the front of a byte stream. The message must
/// fill its frame exactly; a frame whose length header reaches beyond the
/// bytes at hand is truncated, not malformed.
pub open spec fn dec_frame(b: Seq<u8>) -> FrameOutcome {
    if b.len() < 8 {
        FrameOutcome::Truncated
    } else {
        let len = spec_u64_from_le_bytes(b.subrange(0, 8)) as int;
        if b.len() < 8 + len {
            FrameOutcome::Truncated
        } else {
            let body = b.subrange(8, 8 + len);
            match dec_message(body, 0) {
                Some((m, end)) => if end == len {
                    FrameOutcome::Frame(m, 8 + len)
                } else {
                    FrameOutcome::Malformed
                },
                None => FrameOutcome::Malformed,
            }
        }
    }
}

/// The bytes of `b` from `from` to `to`.
fn subvec(b: &Vec<u8>, from: usize, to: usize) -> (r: Vec<u8>)
    requires
        from <= to <= b@.len(),
    ensures
        r@ == b@.subrange(from as int, to as int),
{
    let mut r: Vec<u8> = Vec::new();
    let mut i: usize = from;
    while i < to
        invariant
            from <= i <= to <= b@.len(),
            r@ == b@.subrange(from as int, i as int),
        decreases to - i,
    {
        r.push(b[i]);
        assert(r@ =~= b@.subrange(from as int, i as int + 1));
        i += 1;
    }
    r
}

/// Relies on `String::from_utf8`: it accepts exactly the byte sequences
/// that are valid UTF-8, and the string it returns consists of those bytes,
/// so its characters are their UTF-8 decoding.
#[verifier::external_body]
fn string_from_utf8(bytes: Vec<u8>) -> (r: Option<String>)
    ensures
        r is Some <==> valid_utf8(bytes@),
        r matches Some(s) ==> s@ == decode_utf8(bytes@),
{
    match String::from_utf8(bytes) {
        Ok(s) => Some(s),
        Err(_) => None,
    }
}

/// Reads a 32-bit integer.
fn read_u32(b: &Vec<u8>, pos: usize) -> (r: Option<(u32, usize)>)
    ensures
        (match dec_u32(b@, pos as int) {
            Some((x, p)) => r matches Some(rr) && rr.0 == x && rr.1 == p,
            None => r is None,
        }),
{
    if pos <= b.len() && b.len() - pos >= 4 {
        let s = vstd::slice::slice_subrange(b.as_slice(), pos, pos + 4);
        Some((u32_from_le_bytes(s), pos + 4))
    } else {
        None
    }
}

/// Reads a 64-bit integer.
fn read_u64(b: &Vec<u8>, pos: usize) -> (r: Option<(u64, usize)>)
    ensures
        (match dec_u64(b@, pos as int) {
            Some((x, p)) => r matches Some(rr) && rr.0 == x && rr.1 == p,
            None => r is None,
        }),
{
    if pos <= b.len() && b.len() - pos >= 8 {
        let s = vstd::slice::slice_subrange(b.as_slice(), pos, pos + 8);
        Some((u64_from_le_bytes(s), pos + 8))
    } else {
        None
    }
}

/// Reads a flag byte.
fn read_bool(b: &Vec<u8>, pos: usize) -> (r: Option<(bool, usize)>)
    ensures
        (match dec_bool(b@, pos as int) {
            Some((x, p)) => r matches Some(rr) && rr.0 == x && rr.1 == p,
            None => r is None,
        }),
{
    if pos < b.len() {
        let byte = b[pos];
        if byte == 0 {
            Some((false, pos + 1))
        } else if byte == 1 {
            Some((true, pos + 1))
        } else {
            None
        }
    } else {
        None
    }
}

/// Reads a length-prefixed UTF-8 string.
fn read_str(b: &Vec<u8>, pos: usize) -> (r: Option<(String, usize)>)
    ensures
        (match dec_str(b@, pos as int) {
            Some((s, p)) => r matches Some(rr) && rr.0@ == s && rr.1 == p,
            None => r is None,
        }),
{
    match read_u64(b, pos) {
        Some((n, p)) => {
            if n <= (b.len() - p) as u64 {
                let len = n as usize;
                let body = subvec(b, p, p + len);
                match string_from_utf8(body) {
                    Some(s) => Some((s, p + len)),
                    None => None,
                }
            } else {
                None
            }
        },
        None => None,
    }
}

/// Reads a path prefix tag.
fn read_prefix(b: &Vec<u8>, pos: usize) -> (r: Option<(PathPrefix, usize)>)
    ensures
        (match dec_prefix(b@, pos as int) {
            Some((x, p)) => r matches Some(rr) && rr.0 == x && rr.1 == p,
            None => r is None,
        }),
{
    match read_u32(b, pos) {
        Some((tag, p)) => {
            if tag == 0 {
                Some((PathPrefix::Plain, p))
            } else if tag == 1 {
                Some((PathPrefix::Nt, p))
            } else if tag == 2 {
                Some((PathPrefix::Extended, p))
            } else {
                None
            }
        },
        None => None,
    }
}

/// Reads `n` consecutive components.
fn read_components(b: &Vec<u8>, pos: usize, n: u64) -> (r: Option<(Vec<String>, usize)>)
    ensures
        (match dec_components(b@, pos as int, n as int) {
            Some((parts, p)) => r matches Some(rr) && rr.0.deep_view() == parts && rr.1 == p,
            None => r is None,
        }),
{
    let mut comps: Vec<String> = Vec::new();
    let mut k: u64 = 0;
    let mut p: usize = pos;
    while k < n
        invariant
            k <= n,
            (match dec_components(b@, p as int, n - k) {
                Some((rest, end)) => dec_components(b@, pos as int, n as int) == Some(
                    (comps.deep_view() + rest, end),
                ),
                None => dec_components(b@, pos as int, n as int) is None,
            }),
        decreases n - k,
    {
        match read_str(b, p) {
            Some((s, p2)) => {
                proof {
                    assert(dec_str(b@, p as int) == Some((s@, p2 as int)));
                    match dec_components(b@, p2 as int, n - k - 1) {
                        Some((rest, end)) => {
                            assert(comps.deep_view() + (seq![s@] + rest) =~= (
                            comps.deep_view().push(s@)) + rest);
                        },
                        None => {},
                    }
                }
                comps.push(s);
                p = p2;
                k += 1;
            },
            None => {
                proof {
                    assert(dec_str(b@, p as int) is None);
                    assert(dec_components(b@, p as int, n - k) is None);
                }
                return None;
            },
        }
    }
    assert(comps.deep_view() + Seq::<Seq<char>>::empty() =~= comps.deep_view());
    Some((comps, p))
}

/// Reads a path.
fn read_path(b: &Vec<u8>, pos: usize) -> (r: Option<(VfsPath, usize)>)
    ensures
        (match dec_path(b@, pos as int) {
            Some((pm, p)) => r matches Some(rr) && rr.0@ == pm && rr.1 == p,
            None => r is None,
        }),
{
    match read_prefix(b, pos) {
        Some((prefix, p)) => match read_u64(b, p) {
            Some((n, p2)) => match read_components(b, p2, n) {
                Some((components, p3)) => Some((VfsPath { prefix, components }, p3)),
                None => None,
            },
            None => None,
        },
        None => None,
    }
}

/// Reads the source end of a mapping.
fn read_from(b: &Vec<u8>, pos: usize) -> (r: Option<(MappingFrom, usize)>)
    ensures
        (match dec_end(b@, pos as int) {
            Some((e, p)) => r matches Some(rr) && rr.0@ == e && rr.1 == p,
            None => r is None,
        }),
{
    match read_u32(b, pos) {
        Some((tag, p)) => match read_path(b, p) {
            Some((path, p2)) => {
                if tag == 0 {
                    Some((MappingFrom::File(path), p2))
                } else if tag == 1 {
                    Some((MappingFrom::Folder(path), p2))
                } else {
                    None
                }
            },
            None => None,
        },
        None => None,
    }
}

/// Reads the target end of a mapping.
fn read_to(b: &Vec<u8>, pos: usize) -> (r: Option<(MappingTo, usize)>)
    ensures
        (match dec_end(b@, pos as int) {
            Some((e, p)) => r matches Some(rr) && rr.0@ == e && rr.1 == p,
            None => r is None,
        }),
{
    match read_u32(b, pos) {
        Some((tag, p)) => match read_path(b, p) {
            Some((path, p2)) => {
                if tag == 0 {
                    Some((MappingTo::File(path), p2))
                } else if tag == 1 {
                    Some((MappingTo::Folder(path), p2))
                } else {
                    None
                }
            },
            None => None,
        },
        None => None,
    }
}

/// Reads one mapping.
fn read_mapping(b: &Vec<u8>, pos: usize) -> (r: Option<(Mapping, usize)>)
    ensures
        (match dec_mapping(b@, pos as int) {
            Some((m, p)) => r matches Some(rr) && rr.0@ == m && rr.1 == p,
            None => r is None,
        }),
{
    match read_u32(b, pos) {
        Some((tag, p)) => {
            if tag == 0 || tag == 1 {
                let kind = if tag == 0 {
                    MappingKind::Redirect
                } else {
                    MappingKind::Mount
                };
                match read_from(b, p) {
                    Some((from, p2)) => match read_to(b, p2) {
                        Some((to, p3)) => Some((Mapping { kind, from, to }, p3)),
                        None => None,
                    },
                    None => None,
                }
            } else {
                None
            }
        },
        None => None,
    }
}

/// Reads a mapping table.
fn read_mappings(b: &Vec<u8>, pos: usize) -> (r: Option<(Mappings, usize)>)
    ensures
        (match dec_mappings(b@, pos as int) {
            Some((ms, p)) => r matches Some(rr) && rr.0@ == ms && rr.1 == p,
            None => r is None,
        }),
{
    let (n, start) = match read_u64(b, pos) {
        Some(v) => v,
        None => {
            return None;
        },
    };
    let mut rules: Vec<Mapping> = Vec::new();
    let mut k: u64 = 0;
    let mut p: usize = start;
    while k < n
        invariant
            k <= n,
            dec_u64(b@, pos as int) == Some((n, start as int)),
            (match dec_mapping_list(b@, p as int, n - k) {
                Some((rest, end)) => dec_mapping_list(b@, start as int, n as int) == Some(
                    (rules.deep_view() + rest, end),
                ),
                None => dec_mapping_list(b@, start as int, n as int) is None,
            }),
        decreases n - k,
    {
        match read_mapping(b, p) {
            Some((m, p2)) => {
                proof {
                    assert(dec_mapping(b@, p as int) == Some((m@, p2 as int)));
                    match dec_mapping_list(b@, p2 as int, n - k - 1) {
                        Some((rest, end)) => {
                            assert(rules.deep_view() + (seq![m@] + rest) =~= (
                            rules.deep_view().push(m@)) + rest);
                        },
                        None => {},
                    }
                }
                rules.push(m);
                p = p2;
                k += 1;
            },
            None => {
                proof {
                    assert(dec_mapping(b@, p as int) is None);
                    assert(dec_mapping_list(b@, p as int, n - k) is None);
                }
                return None;
            },
        }
    }
    assert(rules.deep_view() + Seq::<MappingModel>::empty() =~= rules.deep_view());
    Some((Mappings { mappings: rules }, p))
}

/// Reads a startup configuration.
fn read_startup(b: &Vec<u8>, pos: usize) -> (r: Option<(StartupInfo, usize)>)
    ensures
        (match dec_startup(b@, pos as int) {
            Some((si, p)) => r matches Some(rr) && rr.0@ == si && rr.1 == p,
            None => r is None,
        }),
{
    match read_bool(b, pos) {
        Some((main_thread_suspended, p)) => match read_bool(b, p) {
            Some((dont_hook_subprocesses, p2)) => match read_bool(b, p2) {
                Some((show_console, p3)) => match read_mappings(b, p3) {
                    Some((mappings, p4)) => Some(
                        (
                            StartupInfo {
                                main_thread_suspended,
                                dont_hook_subprocesses,
                                show_console,
                                mappings,
                            },
                            p4,
                        ),
                    ),
                    None => None,
                },
                None => None,
            },
            None => None,
        },
        None => None,
    }
}

/// Reads a log level tag.
fn read_level(b: &Vec<u8>, pos: usize) -> (r: Option<(LogLevel, usize)>)
    ensures
        (match dec_level(b@, pos as int) {
            Some((x, p)) => r matches Some(rr) && rr.0 == x && rr.1 == p,
            None => r is None,
        }),
{
    match read_u32(b, pos) {
        Some((tag, p)) => {
            if tag == 0 {
                Some((LogLevel::Error, p))
            } else if tag == 1 {
                Some((LogLevel::Warn, p))
            } else if tag == 2 {
                Some((LogLevel::Info, p))
            } else if tag == 3 {
                Some((LogLevel::Debug, p))
            } else if tag == 4 {
                Some((LogLevel::Trace, p))
            } else {
                None
            }
        },
        None => None,
    }
}

/// Reads a log line.
fn read_log(b: &Vec<u8>, pos: usize) -> (r: Option<(LogMessage, usize)>)
    ensures
        (match dec_log(b@, pos as int) {
            Some((lm, p)) => r matches Some(rr) && rr.0@ == lm && rr.1 == p,
            None => r is None,
        }),
{
    match read_level(b, pos) {
        Some((level, p)) => match read_str(b, p) {
            Some((module_name, p2)) => match read_str(b, p2) {
                Some((file, p3)) => match read_u32(b, p3) {
                    Some((line, p4)) => match read_str(b, p4) {
                        Some((message, p5)) => Some(
                            (LogMessage { level, module_name, file, line, message }, p5),
                        ),
                        None => None,
                    },
                    None => None,
                },
                None => None,
            },
            None => None,
        },
        None => None,
    }
}

/// Reads one message.
fn read_message_at(b: &Vec<u8>, pos: usize) -> (r: Option<(Message, usize)>)
    ensures
        (match dec_message(b@, pos as int) {
            Some((m, p)) => r matches Some(rr) && rr.0@ == m && rr.1 == p,
            None => r is None,
        }),
{
    match read_u32(b, pos) {
        Some((tag, p)) => {
            if tag == 0 {
                match read_startup(b, p) {
                    Some((si, p2)) => Some((Message::StartupInfo(si), p2)),
                    None => None,
                }
            } else if tag == 1 {
                match read_log(b, p) {
                    Some((lm, p2)) => Some((Message::LogMessage(lm), p2)),
                    None => None,
                }
            } else if tag == 2 {
                Some((Message::Initialized, p))
            } else if tag == 3 {
                match read_str(b, p) {
                    Some((s, p2)) => Some((Message::InitializationFailed(s), p2)),
                    None => None,
                }
            } else if tag == 4 {
                match read_u32(b, p) {
                    Some((pid, p2)) => Some((Message::ProcessSpawned(ProcessSpawned { pid }), p2)),
                    None => None,
                }
            } else if tag == 5 {
                Some((Message::ProcessDetach, p))
            } else {
                None
            }
        },
        None => None,
    }
}

/// What `decode_frame` found at the front of the received bytes.
pub enum FrameResult {
    /// Not enough bytes for a whole frame.
    Truncated,
    /// A complete frame whose bytes do not form one message exactly.
    Malformed,
    /// One decoded message and the number of bytes its frame occupied.
    Frame(Message, usize),
}

/// Reads one whole frame from the front of the received bytes.
pub fn decode_frame(input: &Vec<u8>) -> (r: FrameResult)
    ensures
        (match dec_frame(input@) {
            FrameOutcome::Frame(m, used) => r matches FrameResult::Frame(rm, ru) && rm@ == m && ru
                == used,
            FrameOutcome::Truncated => r is Truncated,
            FrameOutcome::Malformed => r is Malformed,
        }),
{
    let (len, _) = match read_u64(input, 0) {
        Some(v) => v,
        None => {
            return FrameResult::Truncated;
        },
    };
    if len > (input.len() - 8) as u64 {
        return FrameResult::Truncated;
    }
    let blen = len as usize;
    let body = subvec(input, 8, 8 + blen);
    match read_message_at(&body, 0) {
        Some((m, end)) => {
            if end == blen {
                FrameResult::Frame(m, 8 + blen)
            } else {
                FrameResult::Malformed
            }
        },
        None => FrameResult::Malformed,
    }
}

/// Splitting a component list splits its encoding.
proof fn lemma_enc_components_concat(a: Seq<Seq<char>>, b: Seq<Seq<char>>)
    ensures
        enc_components(a + b) == enc_components(a) + enc_components(b),
    decreases a.len(),
{
    if a.len() == 0 {
        assert(a + b =~~= b);
        assert(enc_components(a) + enc_components(b) =~= enc_components(b));
    } else {
        assert((a + b).first() == a.first());
        assert((a + b).drop_first() =~~= a.drop_first() + b);
        lemma_enc_components_concat(a.drop_first(), b);
        assert(enc_str(a.first()) + (enc_components(a.drop_first()) + enc_components(b)) =~= (
        enc_str(a.first()) + enc_components(a.drop_first())) + enc_components(b));
    }
}

/// Encoding one more component appends its encoding.
proof fn lemma_enc_components_snoc(parts: Seq<Seq<char>>, i: int)
    requires
        0 <= i < parts.len(),
    ensures
        enc_components(parts.take(i + 1)) == enc_components(parts.take(i)) + enc_str(parts[i]),
{
    assert(parts.take(i + 1) =~~= parts.take(i) + seq![parts[i]]);
    lemma_enc_components_concat(parts.take(i), seq![parts[i]]);
    let s1 = seq![parts[i]];
    assert(s1.len() == 1);
    assert(s1.first() == parts[i]);
    assert(s1.drop_first() =~~= Seq::<Seq<char>>::empty());
    assert(enc_components(s1.drop_first()) =~= Seq::<u8>::empty());
    assert(enc_components(s1) == enc_str(s1.first()) + enc_components(s1.drop_first()));
    assert(enc_components(s1) =~= enc_str(parts[i]));
}

/// Splitting a rule list splits its encoding.
proof fn lemma_enc_mapping_list_concat(a: Seq<MappingModel>, b: Seq<MappingModel>)
    ensures
        enc_mapping_list(a + b) == enc_mapping_list(a) + enc_mapping_list(b),
    decreases a.len(),
{
    if a.len() == 0 {
        assert(a + b =~= b);
        assert(enc_mapping_list(a) + enc_mapping_list(b) =~= enc_mapping_list(b));
    } else {
        assert((a + b).first() == a.first());
        assert((a + b).drop_first() =~= a.drop_first() + b);
        lemma_enc_mapping_list_concat(a.drop_first(), b);
        assert(enc_mapping(a.first()) + (enc_mapping_list(a.drop_first()) + enc_mapping_list(b))
            =~= (enc_mapping(a.first()) + enc_mapping_list(a.drop_first())) + enc_mapping_list(b));
    }
}

/// Encoding one more rule appends its encoding.
proof fn lemma_enc_mapping_list_snoc(ms: Seq<MappingModel>, i: int)
    requires
        0 <= i < ms.len(),
    ensures
        enc_mapping_list(ms.take(i + 1)) == enc_mapping_list(ms.take(i)) + enc_mapping(ms[i]),
{
    assert(ms.take(i + 1) =~= ms.take(i) + seq![ms[i]]);
    lemma_enc_mapping_list_concat(ms.take(i), seq![ms[i]]);
    let s1 = seq![ms[i]];
    assert(s1.len() == 1);
    assert(s1.first() == ms[i]);
    assert(s1.drop_first() =~= Seq::<MappingModel>::empty());
    assert(enc_mapping_list(s1.drop_first()) =~= Seq::<u8>::empty());
    assert(enc_mapping_list(s1) == enc_mapping(s1.first()) + enc_mapping_list(s1.drop_first()));
    assert(enc_mapping_list(s1) =~= enc_mapping(ms[i]));
}

/// Peels the first piece off bytes that hold two pieces back to back.
proof fn lemma_split_at(b: Seq<u8>, pos: int, s1: Seq<u8>, s2: Seq<u8>)
    requires
        0 <= pos,
        pos + s1.len() + s2.len() <= b.len(),
        b.subrange(pos, pos + s1.len() + s2.len()) == s1 + s2,
    ensures
        b.subrange(pos, pos + s1.len()) == s1,
        b.subrange(pos + s1.len(), pos + s1.len() + s2.len()) == s2,
{
    let l1 = s1.len() as int;
    let l2 = s2.len() as int;
    let whole = b.subrange(pos, pos + l1 + l2);
    assert forall|i: int| 0 <= i < l1 implies b.subrange(pos, pos + l1)[i] == s1[i] by {
        assert(whole[i] == (s1 + s2)[i]);
        assert(whole[i] == b[pos + i]);
        assert((s1 + s2)[i] == s1[i]);
    }
    assert(b.subrange(pos, pos + l1) =~= s1);
    assert forall|i: int| 0 <= i < l2 implies b.subrange(pos + l1, pos + l1 + l2)[i] == s2[i] by {
        assert(whole[l1 + i] == (s1 + s2)[l1 + i]);
        assert(whole[l1 + i] == b[pos + l1 + i]);
        assert((s1 + s2)[l1 + i] == s2[i]);
    }
    assert(b.subrange(pos + l1, pos + l1 + l2) =~= s2);
}

/// The encoding of a 32-bit integer is four bytes long.
proof fn lemma_enc_u32_len(x: u32)
    ensures
        enc_u32(x).len() == 4,
{
    lemma_auto_spec_u32_to_from_le_bytes();
    assert(spec_u32_to_le_bytes(x).len() == 4);
}

/// The encoding of a 64-bit integer is eight bytes long.
proof fn lemma_enc_u64_len(x: u64)
    ensures
        enc_u64(x).len() == 8,
{
    lemma_auto_spec_u64_to_from_le_bytes();
    assert(spec_u64_to_le_bytes(x).len() == 8);
}

/// A 32-bit integer read back from its four bytes is itself.
proof fn lemma_dec_u32_at(b: Seq<u8>, pos: int, x: u32)
    requires
        0 <= pos,
        pos + 4 <= b.len(),
        b.subrange(pos, pos + 4) == enc_u32(x),
    ensures
        dec_u32(b, pos) == Some((x, pos + 4)),
{
    lemma_auto_spec_u32_to_from_le_bytes();
    assert(spec_u32_to_le_bytes(x).len() == 4);
    assert(spec_u32_from_le_bytes(spec_u32_to_le_bytes(x)) == x);
}

/// A 64-bit integer read back from its eight bytes is itself.
proof fn lemma_dec_u64_at(b: Seq<u8>, pos: int, x: u64)
    requires
        0 <= pos,
        pos + 8 <= b.len(),
        b.subrange(pos, pos + 8) == enc_u64(x),
    ensures
        dec_u64(b, pos) == Some((x, pos + 8)),
{
    lemma_auto_spec_u64_to_from_le_bytes();
    assert(spec_u64_to_le_bytes(x).len() == 8);
    assert(spec_u64_from_le_bytes(spec_u64_to_le_bytes(x)) == x);
}

/// A flag read back from its byte is itself.
proof fn lemma_dec_bool_at(b: Seq<u8>, pos: int, v: bool)
    requires
        0 <= pos,
        pos + 1 <= b.len(),
        b.subrange(pos, pos + 1) == enc_bool(v),
    ensures
        dec_bool(b, pos) == Some((v, pos + 1)),
{
    assert(b[pos] == b.subrange(pos, pos + 1)[0]);
    assert(b[pos] == enc_bool(v)[0]);
}

/// A string read back from its encoding is itself.
proof fn lemma_dec_str_at(b: Seq<u8>, pos: int, s: Seq<char>)
    requires
        0 <= pos,
        pos + enc_str(s).len() <= b.len(),
        b.len() < 0x1_0000_0000_0000_0000,
        b.subrange(pos, pos + enc_str(s).len()) == enc_str(s),
    ensures
        dec_str(b, pos) == Some((s, pos + enc_str(s).len())),
{
    let e = encode_utf8(s);
    let l = e.len() as int;
    lemma_enc_u64_len(e.len() as u64);
    assert(enc_str(s).len() == 8 + l);
    lemma_split_at(b, pos, enc_u64(e.len() as u64), e);
    lemma_dec_u64_at(b, pos, e.len() as u64);
    encode_utf8_valid_utf8(s);
    encode_utf8_decode_utf8(s);
    assert(b.subrange(pos + 8, pos + 8 + l) == e);
}

/// The encoding of a component list takes at least eight bytes per
/// component.
proof fn lemma_enc_components_len(parts: Seq<Seq<char>>)
    ensures
        enc_components(parts).len() >= 8 * parts.len(),
    decreases parts.len(),
{
    if parts.len() > 0 {
        lemma_enc_u64_len(encode_utf8(parts.first()).len() as u64);
        lemma_enc_components_len(parts.drop_first());
    }
}

/// A component list read back from its encoding is itself.
proof fn lemma_dec_components_at(b: Seq<u8>, pos: int, parts: Seq<Seq<char>>)
    requires
        0 <= pos,
        pos + enc_components(parts).len() <= b.len(),
        b.len() < 0x1_0000_0000_0000_0000,
        b.subrange(pos, pos + enc_components(parts).len()) == enc_components(parts),
    ensures
        dec_components(b, pos, parts.len() as int) == Some(
            (parts, pos + enc_components(parts).len()),
        ),
    decreases parts.len(),
{
    if parts.len() == 0 {
        assert(parts =~~= Seq::<Seq<char>>::empty());
    } else {
        let first = parts.first();
        let rest = parts.drop_first();
        let l1 = enc_str(first).len() as int;
        assert(enc_components(parts) == enc_str(first) + enc_components(rest));
        lemma_split_at(b, pos, enc_str(first), enc_components(rest));
        lemma_dec_str_at(b, pos, first);
        lemma_dec_components_at(b, pos + l1, rest);
        assert(seq![first] + rest =~~= parts);
    }
}

/// A path prefix read back from its tag is itself.
proof fn lemma_dec_prefix_at(b: Seq<u8>, pos: int, p: PathPrefix)
    requires
        0 <= pos,
        pos + 4 <= b.len(),
        b.subrange(pos, pos + 4) == enc_u32(prefix_tag(p)),
    ensures
        dec_prefix(b, pos) == Some((p, pos + 4)),
{
    lemma_dec_u32_at(b, pos, prefix_tag(p));
}

/// A path read back from its encoding is itself.
proof fn lemma_dec_path_at(b: Seq<u8>, pos: int, p: PathModel)
    requires
        0 <= pos,
        pos + enc_path(p).len() <= b.len(),
        b.len() < 0x1_0000_0000_0000_0000,
        b.subrange(pos, pos + enc_path(p).len()) == enc_path(p),
    ensures
        dec_path(b, pos) == Some((p, pos + enc_path(p).len())),
{
    let t = enc_u32(prefix_tag(p.prefix));
    let c = enc_u64(p.parts.len() as u64);
    let e = enc_components(p.parts);
    lemma_enc_u32_len(prefix_tag(p.prefix));
    lemma_enc_u64_len(p.parts.len() as u64);
    lemma_enc_components_len(p.parts);
    assert(enc_path(p) == t + c + e);
    assert(enc_path(p) =~= t + (c + e));
    lemma_split_at(b, pos, t, c + e);
    lemma_dec_prefix_at(b, pos, p.prefix);
    lemma_split_at(b, pos + 4, c, e);
    lemma_dec_u64_at(b, pos + 4, p.parts.len() as u64);
    lemma_dec_components_at(b, pos + 12, p.parts);
    assert((PathModel { prefix: p.prefix, parts: p.parts }) =~= p);
}

/// A tagged mapping end read back from its encoding is itself.
proof fn lemma_dec_end_at(b: Seq<u8>, pos: int, e: MappingEndModel)
    requires
        0 <= pos,
        pos + enc_end(e).len() <= b.len(),
        b.len() < 0x1_0000_0000_0000_0000,
        b.subrange(pos, pos + enc_end(e).len()) == enc_end(e),
    ensures
        dec_end(b, pos) == Some((e, pos + enc_end(e).len())),
{
    let t = enc_u32(end_tag(e));
    let pbytes = enc_path(end_path(e));
    lemma_enc_u32_len(end_tag(e));
    assert(enc_end(e) == t + pbytes);
    lemma_split_at(b, pos, t, pbytes);
    lemma_dec_u32_at(b, pos, end_tag(e));
    lemma_dec_path_at(b, pos + 4, end_path(e));
}

/// A mapping read back from its encoding is itself.
proof fn lemma_dec_mapping_at(b: Seq<u8>, pos: int, m: MappingModel)
    requires
        0 <= pos,
        pos + enc_mapping(m).len() <= b.len(),
        b.len() < 0x1_0000_0000_0000_0000,
        b.subrange(pos, pos + enc_mapping(m).len()) == enc_mapping(m),
    ensures
        dec_mapping(b, pos) == Some((m, pos + enc_mapping(m).len())),
{
    let t = enc_u32(kind_tag(m.kind));
    let f = enc_end(m.from);
    let g = enc_end(m.to);
    lemma_enc_u32_len(kind_tag(m.kind));
    assert(enc_mapping(m) == t + f + g);
    assert(enc_mapping(m) =~= t + (f + g));
    lemma_split_at(b, pos, t, f + g);
    lemma_dec_u32_at(b, pos, kind_tag(m.kind));
    lemma_split_at(b, pos + 4, f, g);
    lemma_dec_end_at(b, pos + 4, m.from);
    lemma_dec_end_at(b, pos + 4 + f.len(), m.to);
    assert((MappingModel { kind: m.kind, from: m.from, to: m.to }) =~= m);
}

/// The encoding of a rule list takes at least four bytes per rule.
proof fn lemma_enc_mapping_list_len(ms: Seq<MappingModel>)
    ensures
        enc_mapping_list(ms).len() >= 4 * ms.len(),
    decreases ms.len(),
{
    if ms.len() > 0 {
        lemma_enc_u32_len(kind_tag(ms.first().kind));
        lemma_enc_mapping_list_len(ms.drop_first());
    }
}

/// A rule list read back from its encoding is itself.
proof fn lemma_dec_mapping_list_at(b: Seq<u8>, pos: int, ms: Seq<MappingModel>)
    requires
        0 <= pos,
        pos + enc_mapping_list(ms).len() <= b.len(),
        b.len() < 0x1_0000_0000_0000_0000,
        b.subrange(pos, pos + enc_mapping_list(ms).len()) == enc_mapping_list(ms),
    ensures
        dec_mapping_list(b, pos, ms.len() as int) == Some(
            (ms, pos + enc_mapping_list(ms).len()),
        ),
    decreases ms.len(),
{
    if ms.len() == 0 {
        assert(ms =~= Seq::<MappingModel>::empty());
    } else {
        let first = ms.first();
        let rest = ms.drop_first();
        let l1 = enc_mapping(first).len() as int;
        assert(enc_mapping_list(ms) == enc_mapping(first) + enc_mapping_list(rest));
        lemma_split_at(b, pos, enc_mapping(first), enc_mapping_list(rest));
        lemma_dec_mapping_at(b, pos, first);
        lemma_dec_mapping_list_at(b, pos + l1, rest);
        assert(seq![first] + rest =~= ms);
    }
}

/// A mapping table read back from its encoding is itself.
proof fn lemma_dec_mappings_at(b: Seq<u8>, pos: int, ms: Seq<MappingModel>)
    requires
        0 <= pos,
        pos + enc_mappings(ms).len() <= b.len(),
        b.len() < 0x1_0000_0000_0000_0000,
        b.subrange(pos, pos + enc_mappings(ms).len()) == enc_mappings(ms),
    ensures
        dec_mappings(b, pos) == Some((ms, pos + enc_mappings(ms).len())),
{
    let c = enc_u64(ms.len() as u64);
    let l = enc_mapping_list(ms);
    lemma_enc_u64_len(ms.len() as u64);
    lemma_enc_mapping_list_len(ms);
    assert(enc_mappings(ms) == c + l);
    lemma_split_at(b, pos, c, l);
    lemma_dec_u64_at(b, pos, ms.len() as u64);
    lemma_dec_mapping_list_at(b, pos + 8, ms);
}

/// A startup configuration read back from its encoding is itself.
proof fn lemma_dec_startup_at(b: Seq<u8>, pos: int, si: StartupInfoModel)
    requires
        0 <= pos,
        pos + enc_startup(si).len() <= b.len(),
        b.len() < 0x1_0000_0000_0000_0000,
        b.subrange(pos, pos + enc_startup(si).len()) == enc_startup(si),
    ensures
        dec_startup(b, pos) == Some((si, pos + enc_startup(si).len())),
{
    let b1 = enc_bool(si.main_thread_suspended);
    let b2 = enc_bool(si.dont_hook_subprocesses);
    let b3 = enc_bool(si.show_console);
    let ms = enc_mappings(si.mappings);
    assert(enc_startup(si) == b1 + b2 + b3 + ms);
    assert(enc_startup(si) =~= b1 + (b2 + (b3 + ms)));
    lemma_split_at(b, pos, b1, b2 + (b3 + ms));
    lemma_dec_bool_at(b, pos, si.main_thread_suspended);
    lemma_split_at(b, pos + 1, b2, b3 + ms);
    lemma_dec_bool_at(b, pos + 1, si.dont_hook_subprocesses);
    lemma_split_at(b, pos + 2, b3, ms);
    lemma_dec_bool_at(b, pos + 2, si.show_console);
    lemma_dec_mappings_at(b, pos + 3, si.mappings);
    assert((StartupInfoModel {
        main_thread_suspended: si.main_thread_suspended,
        dont_hook_subprocesses: si.dont_hook_subprocesses,
        show_console: si.show_console,
        mappings: si.mappings,
    }) =~= si);
}

/// A log level read back from its tag is itself.
proof fn lemma_dec_level_at(b: Seq<u8>, pos: int, l: LogLevel)
    requires
        0 <= pos,
        pos + 4 <= b.len(),
        b.subrange(pos, pos + 4) == enc_u32(level_tag(l)),
    ensures
        dec_level(b, pos) == Some((l, pos + 4)),
{
    lemma_dec_u32_at(b, pos, level_tag(l));
}

/// A log line read back from its encoding is itself.
proof fn lemma_dec_log_at(b: Seq<u8>, pos: int, lm: LogMessageModel)
    requires
        0 <= pos,
        pos + enc_log(lm).len() <= b.len(),
        b.len() < 0x1_0000_0000_0000_0000,
        b.subrange(pos, pos + enc_log(lm).len()) == enc_log(lm),
    ensures
        dec_log(b, pos) == Some((lm, pos + enc_log(lm).len())),
{
    let t = enc_u32(level_tag(lm.level));
    let s1 = enc_str(lm.module_name);
    let s2 = enc_str(lm.file);
    let ln = enc_u32(lm.line);
    let s3 = enc_str(lm.message);
    lemma_enc_u32_len(level_tag(lm.level));
    lemma_enc_u32_len(lm.line);
    lemma_enc_u64_len(encode_utf8(lm.module_name).len() as u64);
    lemma_enc_u64_len(encode_utf8(lm.file).len() as u64);
    lemma_enc_u64_len(encode_utf8(lm.message).len() as u64);
    assert(enc_log(lm) == t + s1 + s2 + ln + s3);
    assert(enc_log(lm) =~= t + (s1 + (s2 + (ln + s3))));
    lemma_split_at(b, pos, t, s1 + (s2 + (ln + s3)));
    lemma_dec_level_at(b, pos, lm.level);
    let p1 = pos + 4;
    lemma_split_at(b, p1, s1, s2 + (ln + s3));
    lemma_dec_str_at(b, p1, lm.module_name);
    let p2 = p1 + s1.len();
    lemma_split_at(b, p2, s2, ln + s3);
    lemma_dec_str_at(b, p2, lm.file);
    let p3 = p2 + s2.len();
    lemma_split_at(b, p3, ln, s3);
    lemma_dec_u32_at(b, p3, lm.line);
    let p4 = p3 + 4;
    lemma_dec_str_at(b, p4, lm.message);
    assert((LogMessageModel {
        level: lm.level,
        module_name: lm.module_name,
        file: lm.file,
        line: lm.line,
        message: lm.message,
    }) =~= lm);
}

/// A message read back from its encoding is itself.
proof fn lemma_dec_message_at(b: Seq<u8>, pos: int, m: MessageModel)
    requires
        0 <= pos,
        pos + enc_message(m).len() <= b.len(),
        b.len() < 0x1_0000_0000_0000_0000,
        b.subrange(pos, pos + enc_message(m).len()) == enc_message(m),
    ensures
        dec_message(b, pos) == Some((m, pos + enc_message(m).len())),
{
    match m {
        MessageModel::StartupInfo(si) => {
            lemma_enc_u32_len(0);
            lemma_split_at(b, pos, enc_u32(0), enc_startup(si));
            lemma_dec_u32_at(b, pos, 0);
            lemma_dec_startup_at(b, pos + 4, si);
        },
        MessageModel::LogMessage(lm) => {
            lemma_enc_u32_len(1);
            lemma_split_at(b, pos, enc_u32(1), enc_log(lm));
            lemma_dec_u32_at(b, pos, 1);
            lemma_dec_log_at(b, pos + 4, lm);
        },
        MessageModel::Initialized => {
            lemma_enc_u32_len(2);
            assert(b.subrange(pos, pos + 4) == enc_u32(2));
            lemma_dec_u32_at(b, pos, 2);
        },
        MessageModel::InitializationFailed(s) => {
            lemma_enc_u32_len(3);
            lemma_enc_u64_len(encode_utf8(s).len() as u64);
            lemma_split_at(b, pos, enc_u32(3), enc_str(s));
            lemma_dec_u32_at(b, pos, 3);
            lemma_dec_str_at(b, pos + 4, s);
        },
        MessageModel::ProcessSpawned(pid) => {
            lemma_enc_u32_len(4);
            lemma_enc_u32_len(pid);
            lemma_split_at(b, pos, enc_u32(4), enc_u32(pid));
            lemma_dec_u32_at(b, pos, 4);
            lemma_dec_u32_at(b, pos + 4, pid);
        },
        MessageModel::ProcessDetach => {
            lemma_enc_u32_len(5);
            assert(b.subrange(pos, pos + 4) == enc_u32(5));
            lemma_dec_u32_at(b, pos, 5);
        },
    }
}

/// Law: decoding the frame of any message yields that message back, having
/// consumed the frame exactly.
pub proof fn lemma_frame_round_trip(m: MessageModel)
    requires
        enc_frame(m).len() < 0x1_0000_0000_0000_0000,
    ensures
        dec_frame(enc_frame(m)) == FrameOutcome::Frame(m, enc_frame(m).len() as int),
{
    let body = enc_message(m);
    let b = enc_frame(m);
    lemma_enc_u64_len(body.len() as u64);
    assert(b.len() == 8 + body.len());
    assert(b.subrange(0, 8 + body.len() as int) =~= enc_u64(body.len() as u64) + body);
    lemma_split_at(b, 0, enc_u64(body.len() as u64), body);
    lemma_auto_spec_u64_to_from_le_bytes();
    assert(spec_u64_from_le_bytes(spec_u64_to_le_bytes(body.len() as u64)) == body.len() as u64);
    assert(spec_u64_from_le_bytes(b.subrange(0, 8)) == body.len() as u64);
    let inner = b.subrange(8, 8 + body.len() as int);
    assert(inner == body);
    assert(inner.subrange(0, enc_message(m).len() as int) =~= enc_message(m));
    lemma_dec_message_at(inner, 0, m);
}

/// Law: a frame cut short anywhere before its end reads as truncated, never
/// as a message and never as malformed.
pub proof fn lemma_frame_truncated(m: MessageModel, n: int)
    requires
        0 <= n < enc_frame(m).len(),
        enc_frame(m).len() < 0x1_0000_0000_0000_0000,
    ensures
        dec_frame(enc_frame(m).take(n)) == FrameOutcome::Truncated,
{
    let whole = enc_frame(m);
    let body = enc_message(m);
    let b = whole.take(n);
    lemma_enc_u64_len(body.len() as u64);
    if n >= 8 {
        assert(whole.subrange(0, 8 + body.len() as int) =~= enc_u64(body.len() as u64) + body);
        lemma_split_at(whole, 0, enc_u64(body.len() as u64), body);
        assert(b.subrange(0, 8) =~= whole.subrange(0, 8));
        lemma_auto_spec_u64_to_from_le_bytes();
        assert(spec_u64_from_le_bytes(spec_u64_to_le_bytes(body.len() as u64)) == body.len()
            as u64);
        assert(spec_u64_from_le_bytes(b.subrange(0, 8)) == body.len() as u64);
        assert(b.len() < 8 + body.len());
    }
}

} // verus!
