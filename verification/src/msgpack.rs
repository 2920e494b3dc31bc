//! The wire codec: compact self-describing binary messages.
//!
//! Every message travels as a map whose first entry is `"type"`; the
//! remaining entries are the fields of that message kind, in a fixed
//! order. Strings are length-prefixed UTF-8, small integers widen from
//! a one-byte form, and absent optional fields are a nil byte.

use vstd::prelude::*;
use vstd::utf8::{encode_utf8, decode_utf8, valid_utf8};

verus! {

/// Whether a streamed-texture request starts or stops the stream.
#[derive(Clone, Copy, Debug, PartialEq, Eq, Structural)]
pub enum Command {
    Start,
    Stop,
}

/// One wire message, as the dispatcher consumes it.
#[derive(Debug)]
pub enum Message {
    /// Discovery probe, received on the broadcast port.
    Hello,
    /// Reply to a `Hello`.
    Ack,
    /// A key of the integrated control panel went down.
    IcpButtonPressed { icp: Option<String>, button: String },
    /// A key of the integrated control panel came up (ignored).
    IcpButtonReleased { icp: Option<String>, button: String },
    /// A bezel button of a display went down.
    OsbButtonPressed { mfd: String, osb: String },
    /// A bezel button of a display came up (ignored).
    OsbButtonReleased { mfd: String, osb: String },
    /// Starts or stops a texture stream.
    StreamedTextureRequest {
        identifier: String,
        command: Command,
        refresh_rate: Option<u16>,
        quality: Option<u16>,
    },
    /// A structurally valid message whose kind this server does not know.
    Unknown,
}

/// The mathematical value of a message: its strings as character
/// sequences.
pub enum MessageModel {
    Hello,
    Ack,
    IcpButtonPressed { icp: Option<Seq<char>>, button: Seq<char> },
    IcpButtonReleased { icp: Option<Seq<char>>, button: Seq<char> },
    OsbButtonPressed { mfd: Seq<char>, osb: Seq<char> },
    OsbButtonReleased { mfd: Seq<char>, osb: Seq<char> },
    StreamedTextureRequest {
        identifier: Seq<char>,
        command: Command,
        refresh_rate: Option<u16>,
        quality: Option<u16>,
    },
    Unknown,
}

/// The view of an optional string.
pub open spec fn opt_str_view(s: Option<String>) -> Option<Seq<char>> {
    match s {
        Some(v) => Some(v@),
        None => None,
    }
}

impl View for Message {
    type V = MessageModel;

    open spec fn view(&self) -> MessageModel {
        match self {
            Message::Hello => MessageModel::Hello,
            Message::Ack => MessageModel::Ack,
            Message::IcpButtonPressed { icp, button } => MessageModel::IcpButtonPressed {
                icp: opt_str_view(*icp),
                button: button@,
            },
            Message::IcpButtonReleased { icp, button } => MessageModel::IcpButtonReleased {
                icp: opt_str_view(*icp),
                button: button@,
            },
            Message::OsbButtonPressed { mfd, osb } => MessageModel::OsbButtonPressed {
                mfd: mfd@,
                osb: osb@,
            },
            Message::OsbButtonReleased { mfd, osb } => MessageModel::OsbButtonReleased {
                mfd: mfd@,
                osb: osb@,
            },
            Message::StreamedTextureRequest { identifier, command, refresh_rate, quality } =>
                MessageModel::StreamedTextureRequest {
                identifier: identifier@,
                command: *command,
                refresh_rate: *refresh_rate,
                quality: *quality,
            },
            Message::Unknown => MessageModel::Unknown,
        }
    }
}

// ---------------------------------------------------------------------
// The encoding, as mathematics.
// ---------------------------------------------------------------------

/// A map header carrying the entry count (counts up to 15).
pub open spec fn enc_map(n: nat) -> Seq<u8>
    recommends
        n <= 15,
{
    seq![(0x80 + n) as u8]
}

/// An unsigned integer in its shortest form: one byte below 128, a
/// marked byte below 256, else a marked big-endian pair.
pub open spec fn enc_uint(v: u16) -> Seq<u8> {
    if v < 0x80 {
        seq![v as u8]
    } else if v < 0x100 {
        seq![0xccu8, v as u8]
    } else {
        seq![0xcdu8, (v / 0x100) as u8, (v % 0x100) as u8]
    }
}

/// The string header for a payload of `len` bytes: fixstr below 32,
/// then one-, two- or four-byte big-endian lengths.
pub open spec fn str_header(len: nat) -> Seq<u8>
    recommends
        len < 0x100000000,
{
    if len < 32 {
        seq![(0xa0 + len) as u8]
    } else if len < 0x100 {
        seq![0xd9u8, len as u8]
    } else if len < 0x10000 {
        seq![0xdau8, (len / 0x100) as u8, (len % 0x100) as u8]
    } else {
        seq![
            0xdbu8,
            (len / 0x1000000) as u8,
            ((len / 0x10000) % 0x100) as u8,
            ((len / 0x100) % 0x100) as u8,
            (len % 0x100) as u8,
        ]
    }
}

/// A string: its header, then its UTF-8 bytes.
pub open spec fn enc_str(s: Seq<char>) -> Seq<u8> {
    str_header(encode_utf8(s).len()) + encode_utf8(s)
}

/// The one nil byte.
pub open spec fn enc_nil() -> Seq<u8> {
    seq![0xc0u8]
}

/// An optional string: nil when absent.
pub open spec fn enc_opt_str(s: Option<Seq<char>>) -> Seq<u8> {
    match s {
        Some(v) => enc_str(v),
        None => enc_nil(),
    }
}

/// An optional integer: nil when absent.
pub open spec fn enc_opt_uint(v: Option<u16>) -> Seq<u8> {
    match v {
        Some(x) => enc_uint(x),
        None => enc_nil(),
    }
}

/// Whether the string's UTF-8 form fits the longest length prefix.
pub open spec fn str_encodable(s: Seq<char>) -> bool {
    encode_utf8(s).len() < 0x100000000
}

/// Whether `enc_opt_str` can represent the field.
pub open spec fn opt_str_encodable(s: Option<Seq<char>>) -> bool {
    match s {
        Some(v) => str_encodable(v),
        None => true,
    }
}

/// The wire tag of a command.
pub open spec fn command_tag(c: Command) -> Seq<char> {
    match c {
        Command::Start => "start"@,
        Command::Stop => "stop"@,
    }
}

/// Which messages the encoder can represent: every known kind whose
/// strings fit their length prefixes. `Unknown` is rejected at encode
/// time.
pub open spec fn msg_encodable(m: MessageModel) -> bool {
    match m {
        MessageModel::Hello => true,
        MessageModel::Ack => true,
        MessageModel::IcpButtonPressed { icp, button } => opt_str_encodable(icp)
            && str_encodable(button),
        MessageModel::IcpButtonReleased { icp, button } => opt_str_encodable(icp)
            && str_encodable(button),
        MessageModel::OsbButtonPressed { mfd, osb } => str_encodable(mfd) && str_encodable(osb),
        MessageModel::OsbButtonReleased { mfd, osb } => str_encodable(mfd) && str_encodable(osb),
        MessageModel::StreamedTextureRequest { identifier, .. } => str_encodable(identifier),
        MessageModel::Unknown => false,
    }
}

/// The bytes of a message: the map header, the `"type"` entry, then the
/// fields of the kind in their fixed order.
pub open spec fn spec_encode(m: MessageModel) -> Seq<u8>
    recommends
        msg_encodable(m),
{
    match m {
        MessageModel::Hello => enc_map(1) + enc_str("type"@) + enc_str("hello"@),
        MessageModel::Ack => enc_map(1) + enc_str("type"@) + enc_str("ack"@),
        MessageModel::IcpButtonPressed { icp, button } => enc_map(3) + enc_str("type"@) + enc_str(
            "icp-pressed"@,
        ) + enc_str("icp"@) + enc_opt_str(icp) + enc_str("button"@) + enc_str(button),
        MessageModel::IcpButtonReleased { icp, button } => enc_map(3) + enc_str("type"@) + enc_str(
            "icp-released"@,
        ) + enc_str("icp"@) + enc_opt_str(icp) + enc_str("button"@) + enc_str(button),
        MessageModel::OsbButtonPressed { mfd, osb } => enc_map(3) + enc_str("type"@) + enc_str(
            "osb-pressed"@,
        ) + enc_str("mfd"@) + enc_str(mfd) + enc_str("osb"@) + enc_str(osb),
        MessageModel::OsbButtonReleased { mfd, osb } => enc_map(3) + enc_str("type"@) + enc_str(
            "osb-released"@,
        ) + enc_str("mfd"@) + enc_str(mfd) + enc_str("osb"@) + enc_str(osb),
        MessageModel::StreamedTextureRequest { identifier, command, refresh_rate, quality } =>
            enc_map(5) + enc_str("type"@) + enc_str("streamed-texture"@) + enc_str("identifier"@)
            + enc_str(identifier) + enc_str("command"@) + enc_str(command_tag(command)) + enc_str(
            "refresh_rate"@,
        ) + enc_opt_uint(refresh_rate) + enc_str("quality"@) + enc_opt_uint(quality),
        MessageModel::Unknown => Seq::empty(),
    }
}

/// An ASCII string no longer than the longest length prefix is
/// encodable, and its UTF-8 form is as long as itself.
proof fn lemma_ascii_encodable(s: Seq<char>)
    requires
        vstd::utf8::is_ascii_chars(s),
        s.len() < 0x100000000,
    ensures
        str_encodable(s),
        encode_utf8(s).len() == s.len(),
{
    vstd::utf8::is_ascii_chars_encode_utf8(s);
}

/// The fixed words of the wire format (keys and tags) all fit their
/// length prefixes.
proof fn lemma_wire_words_encodable()
    ensures
        str_encodable("type"@),
        str_encodable("hello"@),
        str_encodable("ack"@),
        str_encodable("icp-pressed"@),
        str_encodable("icp-released"@),
        str_encodable("osb-pressed"@),
        str_encodable("osb-released"@),
        str_encodable("streamed-texture"@),
        str_encodable("icp"@),
        str_encodable("button"@),
        str_encodable("mfd"@),
        str_encodable("osb"@),
        str_encodable("identifier"@),
        str_encodable("command"@),
        str_encodable("refresh_rate"@),
        str_encodable("quality"@),
        str_encodable("start"@),
        str_encodable("stop"@),
{
    reveal_strlit("type");
    reveal_strlit("hello");
    reveal_strlit("ack");
    reveal_strlit("icp-pressed");
    reveal_strlit("icp-released");
    reveal_strlit("osb-pressed");
    reveal_strlit("osb-released");
    reveal_strlit("streamed-texture");
    reveal_strlit("icp");
    reveal_strlit("button");
    reveal_strlit("mfd");
    reveal_strlit("osb");
    reveal_strlit("identifier");
    reveal_strlit("command");
    reveal_strlit("refresh_rate");
    reveal_strlit("quality");
    reveal_strlit("start");
    reveal_strlit("stop");
    lemma_ascii_encodable("type"@);
    lemma_ascii_encodable("hello"@);
    lemma_ascii_encodable("ack"@);
    lemma_ascii_encodable("icp-pressed"@);
    lemma_ascii_encodable("icp-released"@);
    lemma_ascii_encodable("osb-pressed"@);
    lemma_ascii_encodable("osb-released"@);
    lemma_ascii_encodable("streamed-texture"@);
    lemma_ascii_encodable("icp"@);
    lemma_ascii_encodable("button"@);
    lemma_ascii_encodable("mfd"@);
    lemma_ascii_encodable("osb"@);
    lemma_ascii_encodable("identifier"@);
    lemma_ascii_encodable("command"@);
    lemma_ascii_encodable("refresh_rate"@);
    lemma_ascii_encodable("quality"@);
    lemma_ascii_encodable("start"@);
    lemma_ascii_encodable("stop"@);
}

// ---------------------------------------------------------------------
// The executable encoder.
// ---------------------------------------------------------------------

/// Appends an integer in its shortest form.
fn push_uint(out: &mut Vec<u8>, v: u16)
    ensures
        final(out)@ == old(out)@ + enc_uint(v),
{
    if v < 0x80 {
        out.push(v as u8);
    } else if v < 0x100 {
        out.push(0xcc);
        out.push(v as u8);
    } else {
        out.push(0xcd);
        out.push((v / 0x100) as u8);
        out.push((v % 0x100) as u8);
    }
    proof {
        assert(final(out)@ =~= old(out)@ + enc_uint(v));
    }
}

/// Appends the nil byte.
fn push_nil(out: &mut Vec<u8>)
    ensures
        final(out)@ == old(out)@ + enc_nil(),
{
    out.push(0xc0);
    proof {
        assert(final(out)@ =~= old(out)@ + enc_nil());
    }
}

/// Appends a length-prefixed string. Fails (leaving `out` unchanged)
/// only when the UTF-8 form is too long for the longest prefix.
fn push_str(out: &mut Vec<u8>, s: &str) -> (ok: bool)
    ensures
        ok == str_encodable(s@),
        ok ==> final(out)@ == old(out)@ + enc_str(s@),
        !ok ==> final(out)@ == old(out)@,
{
    let bs = s.as_bytes();
    let n = bs.len();
    if (n as u64) >= 0x100000000u64 {
        return false;
    }
    if n < 32 {
        out.push(0xa0 + n as u8);
    } else if n < 0x100 {
        out.push(0xd9);
        out.push(n as u8);
    } else if n < 0x10000 {
        out.push(0xda);
        out.push((n / 0x100) as u8);
        out.push((n % 0x100) as u8);
    } else {
        out.push(0xdb);
        out.push((n / 0x1000000) as u8);
        out.push(((n / 0x10000) % 0x100) as u8);
        out.push(((n / 0x100) % 0x100) as u8);
        out.push((n % 0x100) as u8);
    }
    proof {
        assert(out@ =~= old(out)@ + str_header(encode_utf8(s@).len()));
    }
    let ghost mid = out@;
    for i in 0..n
        invariant
            n == bs@.len(),
            out@ == mid + bs@.subrange(0, i as int),
    {
        out.push(bs[i]);
        proof {
            assert(out@ =~= mid + bs@.subrange(0, i + 1));
        }
    }
    proof {
        assert(bs@.subrange(0, n as int) =~= bs@);
        assert(out@ =~= old(out)@ + enc_str(s@));
    }
    true
}

/// Appends an optional string, nil when absent; fails as `push_str`.
fn push_opt_str(out: &mut Vec<u8>, s: &Option<String>) -> (ok: bool)
    ensures
        ok == opt_str_encodable(opt_str_view(*s)),
        ok ==> final(out)@ == old(out)@ + enc_opt_str(opt_str_view(*s)),
        !ok ==> final(out)@ == old(out)@,
{
    match s {
        Some(v) => push_str(out, v.as_str()),
        None => {
            push_nil(out);
            true
        },
    }
}

/// Appends an optional integer, nil when absent.
fn push_opt_uint(out: &mut Vec<u8>, v: &Option<u16>)
    ensures
        final(out)@ == old(out)@ + enc_opt_uint(*v),
{
    match v {
        Some(x) => push_uint(out, *x),
        None => push_nil(out),
    }
}

/// Encodes a message for the wire. Returns `None` exactly for the
/// messages the wire format cannot carry: `Unknown`, and any message
/// with a string too long for its length prefix.
pub fn encode(m: &Message) -> (r: Option<Vec<u8>>)
    ensures
        r is Some <==> msg_encodable(m@),
        r matches Some(b) ==> b@ == spec_encode(m@),
{
    proof {
        lemma_wire_words_encodable();
    }
    let mut out: Vec<u8> = Vec::new();
    match m {
        Message::Hello => {
            out.push(0x81);
            let ok1 = push_str(&mut out, "type");
            let ok2 = push_str(&mut out, "hello");
            if ok1 && ok2 {
                proof {
                    assert(out@ =~= spec_encode(m@));
                }
                Some(out)
            } else {
                None
            }
        },
        Message::Ack => {
            out.push(0x81);
            let ok1 = push_str(&mut out, "type");
            let ok2 = push_str(&mut out, "ack");
            if ok1 && ok2 {
                proof {
                    assert(out@ =~= spec_encode(m@));
                }
                Some(out)
            } else {
                None
            }
        },
        Message::IcpButtonPressed { icp, button } => {
            out.push(0x83);
            let ok1 = push_str(&mut out, "type");
            let ok2 = push_str(&mut out, "icp-pressed");
            let ok3 = push_str(&mut out, "icp");
            let ok4 = push_opt_str(&mut out, icp);
            let ok5 = push_str(&mut out, "button");
            let ok6 = push_str(&mut out, button.as_str());
            if ok1 && ok2 && ok3 && ok4 && ok5 && ok6 {
                proof {
                    assert(out@ =~= spec_encode(m@));
                }
                Some(out)
            } else {
                None
            }
        },
        Message::IcpButtonReleased { icp, button } => {
            out.push(0x83);
            let ok1 = push_str(&mut out, "type");
            let ok2 = push_str(&mut out, "icp-released");
            let ok3 = push_str(&mut out, "icp");
            let ok4 = push_opt_str(&mut out, icp);
            let ok5 = push_str(&mut out, "button");
            let ok6 = push_str(&mut out, button.as_str());
            if ok1 && ok2 && ok3 && ok4 && ok5 && ok6 {
                proof {
                    assert(out@ =~= spec_encode(m@));
                }
                Some(out)
            } else {
                None
            }
        },
        Message::OsbButtonPressed { mfd, osb } => {
            out.push(0x83);
            let ok1 = push_str(&mut out, "type");
            let ok2 = push_str(&mut out, "osb-pressed");
            let ok3 = push_str(&mut out, "mfd");
            let ok4 = push_str(&mut out, mfd.as_str());
            let ok5 = push_str(&mut out, "osb");
            let ok6 = push_str(&mut out, osb.as_str());
            if ok1 && ok2 && ok3 && ok4 && ok5 && ok6 {
                proof {
                    assert(out@ =~= spec_encode(m@));
                }
                Some(out)
            } else {
                None
            }
        },
        Message::OsbButtonReleased { mfd, osb } => {
            out.push(0x83);
            let ok1 = push_str(&mut out, "type");
            let ok2 = push_str(&mut out, "osb-released");
            let ok3 = push_str(&mut out, "mfd");
            let ok4 = push_str(&mut out, mfd.as_str());
            let ok5 = push_str(&mut out, "osb");
            let ok6 = push_str(&mut out, osb.as_str());
            if ok1 && ok2 && ok3 && ok4 && ok5 && ok6 {
                proof {
                    assert(out@ =~= spec_encode(m@));
                }
                Some(out)
            } else {
                None
            }
        },
        Message::StreamedTextureRequest { identifier, command, refresh_rate, quality } => {
            out.push(0x85);
            let ok1 = push_str(&mut out, "type");
            let ok2 = push_str(&mut out, "streamed-texture");
            let ok3 = push_str(&mut out, "identifier");
            let ok4 = push_str(&mut out, identifier.as_str());
            let ok5 = push_str(&mut out, "command");
            let ok6 = match command {
                Command::Start => push_str(&mut out, "start"),
                Command::Stop => push_str(&mut out, "stop"),
            };
            let ok7 = push_str(&mut out, "refresh_rate");
            push_opt_uint(&mut out, refresh_rate);
            let ok8 = push_str(&mut out, "quality");
            push_opt_uint(&mut out, quality);
            if ok1 && ok2 && ok3 && ok4 && ok5 && ok6 && ok7 && ok8 {
                proof {
                    assert(out@ =~= spec_encode(m@));
                }
                Some(out)
            } else {
                None
            }
        },
        Message::Unknown => None,
    }
}

// ---------------------------------------------------------------------
// The decoding, as mathematics: each parser reads one item at position
// `i` and yields the value with the position after it, or nothing when
// the bytes are malformed there.
// ---------------------------------------------------------------------

/// A map header: the entry count.
pub open spec fn p_map_header(b: Seq<u8>, i: int) -> Option<(nat, int)> {
    if 0 <= i < b.len() && 0x80 <= b[i] <= 0x8f {
        Some(((b[i] - 0x80) as nat, i + 1))
    } else {
        None
    }
}

/// An unsigned integer that fits sixteen bits.
pub open spec fn p_uint(b: Seq<u8>, i: int) -> Option<(u16, int)> {
    if !(0 <= i < b.len()) {
        None
    } else if b[i] < 0x80 {
        Some((b[i] as u16, i + 1))
    } else if b[i] == 0xcc && i + 1 < b.len() {
        Some((b[i + 1] as u16, i + 2))
    } else if b[i] == 0xcd && i + 2 < b.len() {
        Some((((b[i + 1] as int) * 0x100 + (b[i + 2] as int)) as u16, i + 3))
    } else {
        None
    }
}

/// A string header: the payload length in bytes.
pub open spec fn p_strlen(b: Seq<u8>, i: int) -> Option<(int, int)> {
    if !(0 <= i < b.len()) {
        None
    } else if 0xa0 <= b[i] <= 0xbf {
        Some(((b[i] - 0xa0) as int, i + 1))
    } else if b[i] == 0xd9 && i + 1 < b.len() {
        Some((b[i + 1] as int, i + 2))
    } else if b[i] == 0xda && i + 2 < b.len() {
        Some(((b[i + 1] as int) * 0x100 + (b[i + 2] as int), i + 3))
    } else if b[i] == 0xdb && i + 4 < b.len() {
        Some(
            (
                (b[i + 1] as int) * 0x1000000 + (b[i + 2] as int) * 0x10000 + (b[i + 3] as int)
                    * 0x100 + (b[i + 4] as int),
                i + 5,
            ),
        )
    } else {
        None
    }
}

/// A string: its header, then that many bytes of valid UTF-8.
pub open spec fn p_str(b: Seq<u8>, i: int) -> Option<(Seq<char>, int)> {
    match p_strlen(b, i) {
        Some((len, j)) => {
            if j + len <= b.len() && valid_utf8(b.subrange(j, j + len)) {
                Some((decode_utf8(b.subrange(j, j + len)), j + len))
            } else {
                None
            }
        },
        None => None,
    }
}

/// Whether position `i` holds the nil byte.
pub open spec fn p_nil(b: Seq<u8>, i: int) -> bool {
    0 <= i < b.len() && b[i] == 0xc0
}

/// An optional string: nil, or a string.
pub open spec fn p_opt_str(b: Seq<u8>, i: int) -> Option<(Option<Seq<char>>, int)> {
    if p_nil(b, i) {
        Some((None, i + 1))
    } else {
        match p_str(b, i) {
            Some((s, j)) => Some((Some(s), j)),
            None => None,
        }
    }
}

/// An optional integer: nil, or an integer.
pub open spec fn p_opt_uint(b: Seq<u8>, i: int) -> Option<(Option<u16>, int)> {
    if p_nil(b, i) {
        Some((None, i + 1))
    } else {
        match p_uint(b, i) {
            Some((v, j)) => Some((Some(v), j)),
            None => None,
        }
    }
}

/// A map key that must read exactly `name`.
pub open spec fn p_key(b: Seq<u8>, i: int, name: Seq<char>) -> Option<int> {
    match p_str(b, i) {
        Some((s, j)) => if s == name {
            Some(j)
        } else {
            None
        },
        None => None,
    }
}

/// The fields of an ICP button message: `icp` (optional), `button`.
pub open spec fn p_icp_fields(b: Seq<u8>, i: int, n: nat) -> Option<(Option<Seq<char>>, Seq<
    char,
>)> {
    if n != 3 {
        None
    } else {
        match p_key(b, i, "icp"@) {
            Some(j) => match p_opt_str(b, j) {
                Some((icp, j2)) => match p_key(b, j2, "button"@) {
                    Some(j3) => match p_str(b, j3) {
                        Some((button, _)) => Some((icp, button)),
                        None => None,
                    },
                    None => None,
                },
                None => None,
            },
            None => None,
        }
    }
}

/// The fields of an OSB button message: `mfd`, `osb`.
pub open spec fn p_osb_fields(b: Seq<u8>, i: int, n: nat) -> Option<(Seq<char>, Seq<char>)> {
    if n != 3 {
        None
    } else {
        match p_key(b, i, "mfd"@) {
            Some(j) => match p_str(b, j) {
                Some((mfd, j2)) => match p_key(b, j2, "osb"@) {
                    Some(j3) => match p_str(b, j3) {
                        Some((osb, _)) => Some((mfd, osb)),
                        None => None,
                    },
                    None => None,
                },
                None => None,
            },
            None => None,
        }
    }
}

/// The fields of a streamed-texture request: `identifier`, `command`
/// (the word `start` or `stop`), `refresh_rate` and `quality` (both
/// optional).
pub open spec fn p_stream_fields(b: Seq<u8>, i: int, n: nat) -> Option<(
    Seq<char>,
    Command,
    Option<u16>,
    Option<u16>,
)> {
    if n != 5 {
        None
    } else {
        match p_key(b, i, "identifier"@) {
            Some(j) => match p_str(b, j) {
                Some((identifier, j2)) => match p_key(b, j2, "command"@) {
                    Some(j3) => match p_str(b, j3) {
                        Some((word, j4)) => {
                            let command = if word == "start"@ {
                                Some(Command::Start)
                            } else if word == "stop"@ {
                                Some(Command::Stop)
                            } else {
                                None
                            };
                            match command {
                                Some(command) => match p_key(b, j4, "refresh_rate"@) {
                                    Some(j5) => match p_opt_uint(b, j5) {
                                        Some((refresh_rate, j6)) => match p_key(
                                            b,
                                            j6,
                                            "quality"@,
                                        ) {
                                            Some(j7) => match p_opt_uint(b, j7) {
                                                Some((quality, _)) => Some(
                                                    (identifier, command, refresh_rate, quality),
                                                ),
                                                None => None,
                                            },
                                            None => None,
                                        },
                                        None => None,
                                    },
                                    None => None,
                                },
                                None => None,
                            }
                        },
                        None => None,
                    },
                    None => None,
                },
                None => None,
            },
            None => None,
        }
    }
}

/// The message of a recognized tag, given the map's entry count and the
/// position after the tag.
pub open spec fn spec_decode_body(b: Seq<u8>, n: nat, i: int, tag: Seq<char>) -> Option<
    MessageModel,
> {
    if tag == "hello"@ {
        if n == 1 {
            Some(MessageModel::Hello)
        } else {
            None
        }
    } else if tag == "ack"@ {
        if n == 1 {
            Some(MessageModel::Ack)
        } else {
            None
        }
    } else if tag == "icp-pressed"@ {
        match p_icp_fields(b, i, n) {
            Some((icp, button)) => Some(MessageModel::IcpButtonPressed { icp, button }),
            None => None,
        }
    } else if tag == "icp-released"@ {
        match p_icp_fields(b, i, n) {
            Some((icp, button)) => Some(MessageModel::IcpButtonReleased { icp, button }),
            None => None,
        }
    } else if tag == "osb-pressed"@ {
        match p_osb_fields(b, i, n) {
            Some((mfd, osb)) => Some(MessageModel::OsbButtonPressed { mfd, osb }),
            None => None,
        }
    } else if tag == "osb-released"@ {
        match p_osb_fields(b, i, n) {
            Some((mfd, osb)) => Some(MessageModel::OsbButtonReleased { mfd, osb }),
            None => None,
        }
    } else if tag == "streamed-texture"@ {
        match p_stream_fields(b, i, n) {
            Some((identifier, command, refresh_rate, quality)) => Some(
                MessageModel::StreamedTextureRequest { identifier, command, refresh_rate, quality },
            ),
            None => None,
        }
    } else {
        Some(MessageModel::Unknown)
    }
}

/// The message the bytes decode to: a map whose first entry is
/// `"type"`, then the fields of that kind. A recognized kind must carry
/// exactly its fields; an unrecognized but well-formed tag decodes to
/// `Unknown`; anything malformed decodes to nothing.
pub open spec fn spec_decode(b: Seq<u8>) -> Option<MessageModel> {
    match p_map_header(b, 0) {
        Some((n, i0)) => match p_key(b, i0, "type"@) {
            Some(i1) => match p_str(b, i1) {
                Some((tag, i2)) => spec_decode_body(b, n, i2, tag),
                None => None,
            },
            None => None,
        },
        None => None,
    }
}

// ---------------------------------------------------------------------
// The executable decoder.
// ---------------------------------------------------------------------

/// Declares the standard library's UTF-8 error type so the decoder
/// can match on `from_utf8`'s result.
#[verifier::external_type_specification]
#[verifier::external_body]
pub struct ExUtf8Error(core::str::Utf8Error);

/// Relies on core::str::from_utf8: it returns `Ok` exactly on valid
/// UTF-8, and the returned slice reads the given bytes as characters.
pub assume_specification[ core::str::from_utf8 ](v: &[u8]) -> (r: Result<
    &str,
    core::str::Utf8Error,
>)
    ensures
        r is Ok <==> valid_utf8(v@),
        r matches Ok(s) ==> s@ == decode_utf8(v@) && encode_utf8(s@) == v@,
;

/// On a valid UTF-8 region, being the encoding of `s` and decoding to
/// `s` are the same thing.
proof fn lemma_utf8_eq(a: Seq<u8>, s: Seq<char>)
    requires
        valid_utf8(a),
    ensures
        (a == encode_utf8(s)) <==> (decode_utf8(a) == s),
{
    if a == encode_utf8(s) {
        vstd::utf8::encode_utf8_decode_utf8(s);
    }
    if decode_utf8(a) == s {
        vstd::utf8::decode_utf8_encode_utf8(a);
    }
}

/// Equality of two byte slices.
fn bytes_eq(a: &[u8], b: &[u8]) -> (r: bool)
    ensures
        r == (a@ == b@),
{
    let n = a.len();
    if n != b.len() {
        return false;
    }
    for i in 0..n
        invariant
            n == a@.len(),
            n == b@.len(),
            forall|j: int| 0 <= j < i ==> a@[j] == b@[j],
    {
        if a[i] != b[i] {
            return false;
        }
    }
    proof {
        assert(a@ =~= b@);
    }
    true
}

/// Equality of two strings, by their bytes.
pub fn str_eq(a: &str, b: &str) -> (r: bool)
    ensures
        r == (a@ == b@),
{
    let r = bytes_eq(a.as_bytes(), b.as_bytes());
    proof {
        vstd::utf8::encode_utf8_valid_utf8(a@);
        lemma_utf8_eq(encode_utf8(a@), a@);
        lemma_utf8_eq(encode_utf8(a@), b@);
        vstd::utf8::encode_utf8_decode_utf8(a@);
        vstd::utf8::encode_utf8_decode_utf8(b@);
    }
    r
}

/// Reads a string header: the payload length and the position after
/// the header.
fn parse_strlen(b: &[u8], i: usize) -> (r: Option<(usize, usize)>)
    ensures
        match r {
            Some(p) => p_strlen(b@, i as int) == Some((p.0 as int, p.1 as int)) && i < p.1
                <= b@.len(),
            None => p_strlen(b@, i as int) is None,
        },
{
    if i >= b.len() {
        return None;
    }
    let remaining = b.len() - i;
    let t = b[i];
    if 0xa0 <= t && t <= 0xbf {
        Some((((t - 0xa0) as usize), i + 1))
    } else if t == 0xd9 && remaining >= 2 {
        Some((b[i + 1] as usize, i + 2))
    } else if t == 0xda && remaining >= 3 {
        Some(((b[i + 1] as usize) * 0x100 + (b[i + 2] as usize), i + 3))
    } else if t == 0xdb && remaining >= 5 {
        let len_u64 = (b[i + 1] as u64) * 0x1000000 + (b[i + 2] as u64) * 0x10000 + (b[i
            + 3] as u64) * 0x100 + (b[i + 4] as u64);
        Some((len_u64 as usize, i + 5))
    } else {
        None
    }
}

/// Reads a string item: the payload's byte range and the position
/// after it.
fn parse_str_range(b: &[u8], i: usize) -> (r: Option<(usize, usize)>)
    ensures
        match r {
            Some(p) => {
                &&& p_strlen(b@, i as int) matches Some((len, j)) && j == p.0 && j + len == p.1
                &&& i < p.0 <= p.1 <= b@.len()
            },
            None => p_strlen(b@, i as int) is None || (p_strlen(b@, i as int) matches Some(
                (len, j),
            ) && j + len > b@.len()),
        },
{
    match parse_strlen(b, i) {
        Some((len, j)) => {
            if len <= b.len() - j {
                Some((j, j + len))
            } else {
                None
            }
        },
        None => None,
    }
}

/// Reads a map key and demands that it spell exactly `name`.
fn parse_key(b: &[u8], i: usize, name: &str) -> (r: Option<usize>)
    ensures
        match r {
            Some(j) => p_key(b@, i as int, name@) == Some(j as int) && i < j <= b@.len(),
            None => p_key(b@, i as int, name@) is None,
        },
{
    match parse_str_range(b, i) {
        Some((s, e)) => {
            let region = &b[s..e];
            let same = bytes_eq(region, name.as_bytes());
            proof {
                let regions = b@.subrange(s as int, e as int);
                vstd::utf8::encode_utf8_valid_utf8(name@);
                if same {
                    lemma_utf8_eq(regions, name@);
                } else {
                    if valid_utf8(regions) {
                        lemma_utf8_eq(regions, name@);
                    }
                }
            }
            if same {
                Some(e)
            } else {
                None
            }
        },
        None => None,
    }
}

/// Reads a string item as an owned string.
fn parse_string(b: &[u8], i: usize) -> (r: Option<(String, usize)>)
    ensures
        match r {
            Some(p) => p_str(b@, i as int) == Some((p.0@, p.1 as int)) && i < p.1 <= b@.len(),
            None => p_str(b@, i as int) is None,
        },
{
    match parse_str_range(b, i) {
        Some((s, e)) => {
            let region = &b[s..e];
            match core::str::from_utf8(region) {
                Ok(text) => Some((text.to_owned(), e)),
                Err(_) => None,
            }
        },
        None => None,
    }
}

/// Reads an optional string: nil, or a string.
fn parse_opt_string(b: &[u8], i: usize) -> (r: Option<(Option<String>, usize)>)
    ensures
        match r {
            Some(p) => p_opt_str(b@, i as int) == Some((opt_str_view(p.0), p.1 as int)) && i < p.1
                <= b@.len(),
            None => p_opt_str(b@, i as int) is None,
        },
{
    if i < b.len() && b[i] == 0xc0 {
        Some((None, i + 1))
    } else {
        match parse_string(b, i) {
            Some((s, j)) => Some((Some(s), j)),
            None => None,
        }
    }
}

/// Reads an integer that fits sixteen bits.
fn parse_uint(b: &[u8], i: usize) -> (r: Option<(u16, usize)>)
    ensures
        match r {
            Some(p) => p_uint(b@, i as int) == Some((p.0, p.1 as int)) && i < p.1 <= b@.len(),
            None => p_uint(b@, i as int) is None,
        },
{
    if i >= b.len() {
        return None;
    }
    let remaining = b.len() - i;
    let t = b[i];
    if t < 0x80 {
        Some((t as u16, i + 1))
    } else if t == 0xcc && remaining >= 2 {
        Some((b[i + 1] as u16, i + 2))
    } else if t == 0xcd && remaining >= 3 {
        Some(((b[i + 1] as u16) * 0x100 + (b[i + 2] as u16), i + 3))
    } else {
        None
    }
}

/// Reads an optional integer: nil, or an integer.
fn parse_opt_uint(b: &[u8], i: usize) -> (r: Option<(Option<u16>, usize)>)
    ensures
        match r {
            Some(p) => p_opt_uint(b@, i as int) == Some((p.0, p.1 as int)) && i < p.1 <= b@.len(),
            None => p_opt_uint(b@, i as int) is None,
        },
{
    if i < b.len() && b[i] == 0xc0 {
        Some((None, i + 1))
    } else {
        match parse_uint(b, i) {
            Some((v, j)) => Some((Some(v), j)),
            None => None,
        }
    }
}

/// Reads the fields of an ICP button message.
fn parse_icp_fields(b: &[u8], i: usize, n: u8) -> (r: Option<(Option<String>, String)>)
    ensures
        match r {
            Some(p) => p_icp_fields(b@, i as int, n as nat) == Some((opt_str_view(p.0), p.1@)),
            None => p_icp_fields(b@, i as int, n as nat) is None,
        },
{
    if n != 3 {
        return None;
    }
    let j = match parse_key(b, i, "icp") {
        Some(j) => j,
        None => {
            return None;
        },
    };
    let (icp, j2) = match parse_opt_string(b, j) {
        Some(p) => p,
        None => {
            return None;
        },
    };
    let j3 = match parse_key(b, j2, "button") {
        Some(j3) => j3,
        None => {
            return None;
        },
    };
    match parse_string(b, j3) {
        Some((button, _)) => Some((icp, button)),
        None => None,
    }
}

/// Reads the fields of an OSB button message.
fn parse_osb_fields(b: &[u8], i: usize, n: u8) -> (r: Option<(String, String)>)
    ensures
        match r {
            Some(p) => p_osb_fields(b@, i as int, n as nat) == Some((p.0@, p.1@)),
            None => p_osb_fields(b@, i as int, n as nat) is None,
        },
{
    if n != 3 {
        return None;
    }
    let j = match parse_key(b, i, "mfd") {
        Some(j) => j,
        None => {
            return None;
        },
    };
    let (mfd, j2) = match parse_string(b, j) {
        Some(p) => p,
        None => {
            return None;
        },
    };
    let j3 = match parse_key(b, j2, "osb") {
        Some(j3) => j3,
        None => {
            return None;
        },
    };
    match parse_string(b, j3) {
        Some((osb, _)) => Some((mfd, osb)),
        None => None,
    }
}

/// Reads the fields of a streamed-texture request.
fn parse_stream_fields(b: &[u8], i: usize, n: u8) -> (r: Option<
    (String, Command, Option<u16>, Option<u16>),
>)
    ensures
        match r {
            Some(p) => p_stream_fields(b@, i as int, n as nat) == Some((p.0@, p.1, p.2, p.3)),
            None => p_stream_fields(b@, i as int, n as nat) is None,
        },
{
    if n != 5 {
        return None;
    }
    let j = match parse_key(b, i, "identifier") {
        Some(j) => j,
        None => {
            return None;
        },
    };
    let (identifier, j2) = match parse_string(b, j) {
        Some(p) => p,
        None => {
            return None;
        },
    };
    let j3 = match parse_key(b, j2, "command") {
        Some(j3) => j3,
        None => {
            return None;
        },
    };
    let (word, j4) = match parse_string(b, j3) {
        Some(p) => p,
        None => {
            return None;
        },
    };
    let command: Command = if str_eq(word.as_str(), "start") {
        Command::Start
    } else if str_eq(word.as_str(), "stop") {
        Command::Stop
    } else {
        return None;
    };
    let j5 = match parse_key(b, j4, "refresh_rate") {
        Some(j5) => j5,
        None => {
            return None;
        },
    };
    let (refresh_rate, j6) = match parse_opt_uint(b, j5) {
        Some(p) => p,
        None => {
            return None;
        },
    };
    let j7 = match parse_key(b, j6, "quality") {
        Some(j7) => j7,
        None => {
            return None;
        },
    };
    match parse_opt_uint(b, j7) {
        Some((quality, _)) => Some((identifier, command, refresh_rate, quality)),
        None => None,
    }
}

// ---------------------------------------------------------------------
// Round trip: parsing what the encoders wrote yields the value back.
// ---------------------------------------------------------------------

/// Parsing a string at the position where one was encoded yields that
/// string and stops right after it.
proof fn lemma_p_str_encodes(pre: Seq<u8>, s: Seq<char>, post: Seq<u8>)
    requires
        str_encodable(s),
    ensures
        p_str(pre + enc_str(s) + post, pre.len() as int) == Some(
            (s, pre.len() + enc_str(s).len() as int),
        ),
{
    let e = encode_utf8(s);
    let len = e.len() as int;
    let h = str_header(e.len());
    let b = pre + enc_str(s) + post;
    let i = pre.len() as int;
    assert(enc_str(s) == h + e);
    assert forall|k: int| 0 <= k < h.len() + e.len() implies b[i + k] == (h + e)[k] by {}
    let j = i + h.len();
    if e.len() < 32 {
        assert(b[i] == (0xa0 + len) as u8);
        assert(p_strlen(b, i) == Some((len, j)));
    } else if e.len() < 0x100 {
        assert(b[i] == 0xd9 && b[i + 1] == len as u8);
        assert(p_strlen(b, i) == Some((len, j)));
    } else if e.len() < 0x10000 {
        assert(b[i] == 0xda && b[i + 1] == (len / 0x100) as u8 && b[i + 2] == (len
            % 0x100) as u8);
        assert((len / 0x100) * 0x100 + len % 0x100 == len);
        assert(p_strlen(b, i) == Some((len, j)));
    } else {
        assert(b[i] == 0xdb);
        assert(b[i + 1] == (len / 0x1000000) as u8);
        assert(b[i + 2] == ((len / 0x10000) % 0x100) as u8);
        assert(b[i + 3] == ((len / 0x100) % 0x100) as u8);
        assert(b[i + 4] == (len % 0x100) as u8);
        assert((len / 0x1000000) * 0x1000000 + ((len / 0x10000) % 0x100) * 0x10000 + ((len
            / 0x100) % 0x100) * 0x100 + len % 0x100 == len) by (nonlinear_arith)
            requires
                0x10000 <= len < 0x100000000,
        ;
        assert(p_strlen(b, i) == Some((len, j)));
    }
    assert(b.subrange(j, j + len) =~= e) by {
        assert forall|k: int| 0 <= k < len implies b.subrange(j, j + len)[k] == e[k] by {
            assert(b[j + k] == (h + e)[h.len() + k]);
        }
    }
    vstd::utf8::encode_utf8_valid_utf8(s);
    vstd::utf8::encode_utf8_decode_utf8(s);
    assert(j + len == pre.len() + enc_str(s).len());
}

/// Parsing a key at the position where that key was encoded accepts it.
proof fn lemma_p_key_encodes(pre: Seq<u8>, name: Seq<char>, post: Seq<u8>)
    requires
        str_encodable(name),
    ensures
        p_key(pre + enc_str(name) + post, pre.len() as int, name) == Some(
            pre.len() + enc_str(name).len() as int,
        ),
{
    lemma_p_str_encodes(pre, name, post);
}

/// Parsing an integer at the position where one was encoded yields it.
proof fn lemma_p_uint_encodes(pre: Seq<u8>, v: u16, post: Seq<u8>)
    ensures
        p_uint(pre + enc_uint(v) + post, pre.len() as int) == Some(
            (v, pre.len() + enc_uint(v).len() as int),
        ),
{
    let e = enc_uint(v);
    let b = pre + e + post;
    let i = pre.len() as int;
    assert forall|k: int| 0 <= k < e.len() implies b[i + k] == e[k] by {}
    if v < 0x80 {
        assert(b[i] == v as u8);
    } else if v < 0x100 {
        assert(b[i] == 0xcc && b[i + 1] == v as u8);
    } else {
        assert(b[i] == 0xcd && b[i + 1] == (v / 0x100) as u8 && b[i + 2] == (v % 0x100) as u8);
        assert((v / 0x100) * 0x100 + v % 0x100 == v);
    }
}

/// Parsing an optional string at the position where one was encoded
/// yields it: the nil byte for an absent field, the string otherwise.
proof fn lemma_p_opt_str_encodes(pre: Seq<u8>, s: Option<Seq<char>>, post: Seq<u8>)
    requires
        opt_str_encodable(s),
    ensures
        p_opt_str(pre + enc_opt_str(s) + post, pre.len() as int) == Some(
            (s, pre.len() + enc_opt_str(s).len() as int),
        ),
{
    let b = pre + enc_opt_str(s) + post;
    let i = pre.len() as int;
    match s {
        None => {
            assert(b[i] == 0xc0);
        },
        Some(v) => {
            assert(b[i] == enc_str(v)[0]);
            assert(enc_str(v)[0] == str_header(encode_utf8(v).len())[0]);
            assert(b[i] != 0xc0);
            lemma_p_str_encodes(pre, v, post);
        },
    }
}

/// Parsing an optional integer at the position where one was encoded
/// yields it.
proof fn lemma_p_opt_uint_encodes(pre: Seq<u8>, v: Option<u16>, post: Seq<u8>)
    ensures
        p_opt_uint(pre + enc_opt_uint(v) + post, pre.len() as int) == Some(
            (v, pre.len() + enc_opt_uint(v).len() as int),
        ),
{
    let b = pre + enc_opt_uint(v) + post;
    let i = pre.len() as int;
    match v {
        None => {
            assert(b[i] == 0xc0);
        },
        Some(x) => {
            assert(b[i] == enc_uint(x)[0]);
            assert(b[i] != 0xc0);
            lemma_p_uint_encodes(pre, x, post);
        },
    }
}

/// The wire tags spell different words, and so do the two command
/// words.
proof fn lemma_tags_distinct()
    ensures
        "ack"@ != "hello"@,
        "icp-pressed"@ != "hello"@ && "icp-pressed"@ != "ack"@,
        "icp-released"@ != "hello"@ && "icp-released"@ != "ack"@ && "icp-released"@
            != "icp-pressed"@,
        "osb-pressed"@ != "hello"@ && "osb-pressed"@ != "ack"@ && "osb-pressed"@
            != "icp-pressed"@ && "osb-pressed"@ != "icp-released"@,
        "osb-released"@ != "hello"@ && "osb-released"@ != "ack"@ && "osb-released"@
            != "icp-pressed"@ && "osb-released"@ != "icp-released"@ && "osb-released"@
            != "osb-pressed"@,
        "streamed-texture"@ != "hello"@ && "streamed-texture"@ != "ack"@ && "streamed-texture"@
            != "icp-pressed"@ && "streamed-texture"@ != "icp-released"@ && "streamed-texture"@
            != "osb-pressed"@ && "streamed-texture"@ != "osb-released"@,
        "stop"@ != "start"@,
{
    reveal_strlit("hello");
    reveal_strlit("ack");
    reveal_strlit("icp-pressed");
    reveal_strlit("icp-released");
    reveal_strlit("osb-pressed");
    reveal_strlit("osb-released");
    reveal_strlit("streamed-texture");
    reveal_strlit("start");
    reveal_strlit("stop");
    assert("hello"@.len() == 5);
    assert("ack"@.len() == 3);
    assert("icp-pressed"@.len() == 11);
    assert("icp-released"@.len() == 12);
    assert("osb-pressed"@.len() == 11);
    assert("osb-released"@.len() == 12);
    assert("streamed-texture"@.len() == 16);
    assert("start"@.len() == 5);
    assert("stop"@.len() == 4);
    assert("icp-pressed"@[0] == 'i' && "osb-pressed"@[0] == 'o');
    assert("icp-released"@[0] == 'i' && "osb-released"@[0] == 'o');
}

/// Wire round trip: every message the encoder accepts decodes back to
/// exactly itself, tag and fields preserved.
pub proof fn lemma_wire_round_trip(m: MessageModel)
    requires
        msg_encodable(m),
    ensures
        spec_decode(spec_encode(m)) == Some(m),
{
    lemma_wire_words_encodable();
    lemma_tags_distinct();
    let b = spec_encode(m);
    let none: Seq<u8> = Seq::empty();
    match m {
        MessageModel::Hello => {
            let p0 = enc_map(1);
            let p1 = p0 + enc_str("type"@);
            assert(b =~= p0 + enc_str("type"@) + enc_str("hello"@));
            lemma_p_key_encodes(p0, "type"@, enc_str("hello"@));
            assert(b =~= p1 + enc_str("hello"@) + none);
            lemma_p_str_encodes(p1, "hello"@, none);
            assert(b[0] == p0[0]);
            assert(p_map_header(b, 0) == Some((1nat, 1int)));
        },
        MessageModel::Ack => {
            let p0 = enc_map(1);
            let p1 = p0 + enc_str("type"@);
            assert(b =~= p0 + enc_str("type"@) + enc_str("ack"@));
            lemma_p_key_encodes(p0, "type"@, enc_str("ack"@));
            assert(b =~= p1 + enc_str("ack"@) + none);
            lemma_p_str_encodes(p1, "ack"@, none);
            assert(b[0] == p0[0]);
            assert(p_map_header(b, 0) == Some((1nat, 1int)));
        },
        MessageModel::IcpButtonPressed { icp, button } => {
            lemma_round_trip_icp(b, "icp-pressed"@, icp, button);
        },
        MessageModel::IcpButtonReleased { icp, button } => {
            lemma_round_trip_icp(b, "icp-released"@, icp, button);
        },
        MessageModel::OsbButtonPressed { mfd, osb } => {
            lemma_round_trip_osb(b, "osb-pressed"@, mfd, osb);
        },
        MessageModel::OsbButtonReleased { mfd, osb } => {
            lemma_round_trip_osb(b, "osb-released"@, mfd, osb);
        },
        MessageModel::StreamedTextureRequest { identifier, command, refresh_rate, quality } => {
            lemma_round_trip_stream(b, identifier, command, refresh_rate, quality);
        },
        MessageModel::Unknown => {
            assert(false);
        },
    }
}

/// Round trip of the two ICP button kinds, shared: `tag` is the wire
/// tag the message was encoded under.
#[verifier::rlimit(100)]
proof fn lemma_round_trip_icp(b: Seq<u8>, tag: Seq<char>, icp: Option<Seq<char>>, button: Seq<
    char,
>)
    requires
        opt_str_encodable(icp),
        str_encodable(button),
        str_encodable(tag),
        b == enc_map(3) + enc_str("type"@) + enc_str(tag) + enc_str("icp"@) + enc_opt_str(icp)
            + enc_str("button"@) + enc_str(button),
    ensures
        p_map_header(b, 0) == Some((3nat, 1int)),
        p_key(b, 1, "type"@) == Some(1 + enc_str("type"@).len() as int),
        p_str(b, 1 + enc_str("type"@).len() as int) == Some(
            (tag, 1 + enc_str("type"@).len() + enc_str(tag).len() as int),
        ),
        p_icp_fields(b, 1 + enc_str("type"@).len() + enc_str(tag).len() as int, 3nat) == Some(
            (icp, button),
        ),
{
    lemma_wire_words_encodable();
    let none: Seq<u8> = Seq::empty();
    let e1 = enc_str("type"@);
    let e2 = enc_str(tag);
    let e3 = enc_str("icp"@);
    let e4 = enc_opt_str(icp);
    let e5 = enc_str("button"@);
    let e6 = enc_str(button);
    let p0 = enc_map(3);
    let p1 = p0 + e1;
    let p2 = p1 + e2;
    let p3 = p2 + e3;
    let p4 = p3 + e4;
    let p5 = p4 + e5;
    // Suffixes after each prefix, associated to the right.
    let s5 = e6;
    let s4 = e5 + s5;
    let s3 = e4 + s4;
    let s2 = e3 + s3;
    let s1 = e2 + s2;
    lemma_seq_add_empty(b);
    lemma_seq_assoc(p4, e5, s5);
    lemma_seq_assoc(p3, e4, s4);
    lemma_seq_assoc(p2, e3, s3);
    lemma_seq_assoc(p1, e2, s2);
    lemma_seq_assoc(p0, e1, s1);
    lemma_p_str_encodes(p5, button, none);
    lemma_p_key_encodes(p4, "button"@, s5);
    lemma_p_opt_str_encodes(p3, icp, s4);
    lemma_p_key_encodes(p2, "icp"@, s3);
    lemma_p_str_encodes(p1, tag, s2);
    lemma_p_key_encodes(p0, "type"@, s1);
    assert(b[0] == p0[0]);
    assert(p_map_header(b, 0) == Some((3nat, 1int)));
}

/// Round trip of the two OSB button kinds, shared: `tag` is the wire
/// tag the message was encoded under.
#[verifier::rlimit(100)]
proof fn lemma_round_trip_osb(b: Seq<u8>, tag: Seq<char>, mfd: Seq<char>, osb: Seq<char>)
    requires
        str_encodable(mfd),
        str_encodable(osb),
        str_encodable(tag),
        b == enc_map(3) + enc_str("type"@) + enc_str(tag) + enc_str("mfd"@) + enc_str(mfd)
            + enc_str("osb"@) + enc_str(osb),
    ensures
        p_map_header(b, 0) == Some((3nat, 1int)),
        p_key(b, 1, "type"@) == Some(1 + enc_str("type"@).len() as int),
        p_str(b, 1 + enc_str("type"@).len() as int) == Some(
            (tag, 1 + enc_str("type"@).len() + enc_str(tag).len() as int),
        ),
        p_osb_fields(b, 1 + enc_str("type"@).len() + enc_str(tag).len() as int, 3nat) == Some(
            (mfd, osb),
        ),
{
    lemma_wire_words_encodable();
    let none: Seq<u8> = Seq::empty();
    let e1 = enc_str("type"@);
    let e2 = enc_str(tag);
    let e3 = enc_str("mfd"@);
    let e4 = enc_str(mfd);
    let e5 = enc_str("osb"@);
    let e6 = enc_str(osb);
    let p0 = enc_map(3);
    let p1 = p0 + e1;
    let p2 = p1 + e2;
    let p3 = p2 + e3;
    let p4 = p3 + e4;
    let p5 = p4 + e5;
    // Suffixes after each prefix, associated to the right.
    let s5 = e6;
    let s4 = e5 + s5;
    let s3 = e4 + s4;
    let s2 = e3 + s3;
    let s1 = e2 + s2;
    lemma_seq_add_empty(b);
    lemma_seq_assoc(p4, e5, s5);
    lemma_seq_assoc(p3, e4, s4);
    lemma_seq_assoc(p2, e3, s3);
    lemma_seq_assoc(p1, e2, s2);
    lemma_seq_assoc(p0, e1, s1);
    lemma_p_str_encodes(p5, osb, none);
    lemma_p_key_encodes(p4, "osb"@, s5);
    lemma_p_str_encodes(p3, mfd, s4);
    lemma_p_key_encodes(p2, "mfd"@, s3);
    lemma_p_str_encodes(p1, tag, s2);
    lemma_p_key_encodes(p0, "type"@, s1);
    assert(b[0] == p0[0]);
    assert(p_map_header(b, 0) == Some((3nat, 1int)));
}

/// The position just after the tag inside an encoded
/// streamed-texture request.
spec fn stream_pos_tag() -> int {
    1 + enc_str("type"@).len() + enc_str("streamed-texture"@).len() as int
}

/// Round trip of a streamed-texture request.
#[verifier::rlimit(100)]
proof fn lemma_round_trip_stream(
    b: Seq<u8>,
    identifier: Seq<char>,
    command: Command,
    refresh_rate: Option<u16>,
    quality: Option<u16>,
)
    requires
        str_encodable(identifier),
        b == enc_map(5) + enc_str("type"@) + enc_str("streamed-texture"@) + enc_str("identifier"@)
            + enc_str(identifier) + enc_str("command"@) + enc_str(command_tag(command)) + enc_str(
            "refresh_rate"@,
        ) + enc_opt_uint(refresh_rate) + enc_str("quality"@) + enc_opt_uint(quality),
    ensures
        p_map_header(b, 0) == Some((5nat, 1int)),
        p_key(b, 1, "type"@) == Some(1 + enc_str("type"@).len() as int),
        p_str(b, 1 + enc_str("type"@).len() as int) == Some(
            ("streamed-texture"@, stream_pos_tag()),
        ),
        p_stream_fields(b, stream_pos_tag(), 5nat) == Some(
            (identifier, command, refresh_rate, quality),
        ),
{
    lemma_wire_words_encodable();
    lemma_tags_distinct();
    let none: Seq<u8> = Seq::empty();
    let tag = "streamed-texture"@;
    let e1 = enc_str("type"@);
    let e2 = enc_str(tag);
    let e3 = enc_str("identifier"@);
    let e4 = enc_str(identifier);
    let e5 = enc_str("command"@);
    let e6 = enc_str(command_tag(command));
    let e7 = enc_str("refresh_rate"@);
    let e8 = enc_opt_uint(refresh_rate);
    let e9 = enc_str("quality"@);
    let e10 = enc_opt_uint(quality);
    let p0 = enc_map(5);
    let p1 = p0 + e1;
    let p2 = p1 + e2;
    let p3 = p2 + e3;
    let p4 = p3 + e4;
    let p5 = p4 + e5;
    let p6 = p5 + e6;
    let p7 = p6 + e7;
    let p8 = p7 + e8;
    let p9 = p8 + e9;
    // Suffixes after each prefix, associated to the right.
    let s9 = e10;
    let s8 = e9 + s9;
    let s7 = e8 + s8;
    let s6 = e7 + s7;
    let s5 = e6 + s6;
    let s4 = e5 + s5;
    let s3 = e4 + s4;
    let s2 = e3 + s3;
    let s1 = e2 + s2;
    // b equals every split `prefix + suffix`, by one reassociation per
    // item, peeled off the back.
    lemma_seq_add_empty(b);
    lemma_seq_assoc(p8, e9, s9);
    lemma_seq_assoc(p7, e8, s8);
    lemma_seq_assoc(p6, e7, s7);
    lemma_seq_assoc(p5, e6, s6);
    lemma_seq_assoc(p4, e5, s5);
    lemma_seq_assoc(p3, e4, s4);
    lemma_seq_assoc(p2, e3, s3);
    lemma_seq_assoc(p1, e2, s2);
    lemma_seq_assoc(p0, e1, s1);
    lemma_p_opt_uint_encodes(p9, quality, none);
    lemma_p_key_encodes(p8, "quality"@, s9);
    lemma_p_opt_uint_encodes(p7, refresh_rate, s8);
    lemma_p_key_encodes(p6, "refresh_rate"@, s7);
    lemma_p_str_encodes(p5, command_tag(command), s6);
    lemma_p_key_encodes(p4, "command"@, s5);
    lemma_p_str_encodes(p3, identifier, s4);
    lemma_p_key_encodes(p2, "identifier"@, s3);
    lemma_p_str_encodes(p1, tag, s2);
    lemma_p_key_encodes(p0, "type"@, s1);
    assert(b[0] == p0[0]);
    assert(p_map_header(b, 0) == Some((5nat, 1int)));
    assert(p_stream_fields(b, stream_pos_tag(), 5nat) == Some(
        (identifier, command, refresh_rate, quality),
    ));
}

/// Adding the empty sequence on the right changes nothing.
proof fn lemma_seq_add_empty(x: Seq<u8>)
    ensures
        x + Seq::<u8>::empty() == x,
{
    assert(x + Seq::<u8>::empty() =~= x);
}

/// Concatenation of byte strings associates.
proof fn lemma_seq_assoc(x: Seq<u8>, y: Seq<u8>, z: Seq<u8>)
    ensures
        (x + y) + z == x + (y + z),
{
    assert((x + y) + z =~= x + (y + z));
}

/// Decodes one wire message. Returns `None` exactly for the byte
/// strings that `spec_decode` rejects; an unrecognized tag yields
/// `Message::Unknown` rather than a failure.
pub fn decode(b: &[u8]) -> (r: Option<Message>)
    ensures
        r matches Some(m) ==> spec_decode(b@) == Some(m@),
        r is None ==> spec_decode(b@) is None,
{
    if b.len() < 1 {
        return None;
    }
    let t0 = b[0];
    if !(0x80 <= t0 && t0 <= 0x8f) {
        return None;
    }
    let n = t0 - 0x80;
    let i1 = match parse_key(b, 1, "type") {
        Some(j) => j,
        None => {
            return None;
        },
    };
    let (tag, i2) = match parse_string(b, i1) {
        Some(p) => p,
        None => {
            return None;
        },
    };
    if str_eq(tag.as_str(), "hello") {
        if n == 1 {
            Some(Message::Hello)
        } else {
            None
        }
    } else if str_eq(tag.as_str(), "ack") {
        if n == 1 {
            Some(Message::Ack)
        } else {
            None
        }
    } else if str_eq(tag.as_str(), "icp-pressed") {
        match parse_icp_fields(b, i2, n) {
            Some((icp, button)) => Some(Message::IcpButtonPressed { icp, button }),
            None => None,
        }
    } else if str_eq(tag.as_str(), "icp-released") {
        match parse_icp_fields(b, i2, n) {
            Some((icp, button)) => Some(Message::IcpButtonReleased { icp, button }),
            None => None,
        }
    } else if str_eq(tag.as_str(), "osb-pressed") {
        match parse_osb_fields(b, i2, n) {
            Some((mfd, osb)) => Some(Message::OsbButtonPressed { mfd, osb }),
            None => None,
        }
    } else if str_eq(tag.as_str(), "osb-released") {
        match parse_osb_fields(b, i2, n) {
            Some((mfd, osb)) => Some(Message::OsbButtonReleased { mfd, osb }),
            None => None,
        }
    } else if str_eq(tag.as_str(), "streamed-texture") {
        match parse_stream_fields(b, i2, n) {
            Some((identifier, command, refresh_rate, quality)) => Some(
                Message::StreamedTextureRequest { identifier, command, refresh_rate, quality },
            ),
            None => None,
        }
    } else {
        Some(Message::Unknown)
    }
}

} // verus!
