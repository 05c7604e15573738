//! The DBI wire protocol: 16-byte command headers, the file-range request
//! that the Switch sends, the file-list reply, and how a range is cut into
//! chunks.

use vstd::prelude::*;
use vstd::bytes::{spec_u32_from_le_bytes, spec_u32_to_le_bytes, spec_u64_from_le_bytes};
use vstd::utf8::{decode_utf8, encode_utf8, valid_utf8};
use crate::files::{FileList, entry_names};

verus! {

/// USB vendor id of the Nintendo Switch.
pub const SWITCH_VENDOR_ID: u16 = 0x057E;

/// USB product id of the Switch in DBI's backend mode.
pub const SWITCH_PRODUCT_ID: u16 = 0x3000;

/// Command: the installer is done.
pub const CMD_ID_EXIT: u32 = 0;

/// Command: send a range of a file.
pub const CMD_ID_FILE_RANGE: u32 = 2;

/// Command: send the list of file names.
pub const CMD_ID_LIST: u32 = 3;

/// Header type of a reply that carries data.
pub const CMD_TYPE_RESPONSE: u32 = 1;

/// Header type of an acknowledgement.
pub const CMD_TYPE_ACK: u32 = 2;

/// File data goes to the Switch in chunks of at most 1 MiB.
pub const BUFFER_SEGMENT_DATA_SIZE: usize = 0x100000;

/// Progress is reported about every 4 MiB.
pub const PROGRESS_INTERVAL: u64 = 0x400000;

/// Bulk OUT endpoint address.
pub const EP_OUT: u8 = 0x01;

/// Bulk IN endpoint address.
pub const EP_IN: u8 = 0x81;

/// Buffer size for the endpoint reader and writer: one chunk and a page.
pub const EP_BUF_SIZE: usize = 0x101000;

/// The magic that opens every header: `DBI0`.
pub open spec fn magic() -> Seq<u8> {
    seq![0x44u8, 0x42u8, 0x49u8, 0x30u8]
}

/// A command header: type, command id, and the size of the data that
/// follows.
#[derive(Clone, Copy, Debug, PartialEq, Eq, Structural)]
pub struct CommandHeader {
    pub cmd_type: u32,
    pub cmd_id: u32,
    pub data_size: u32,
}

/// The 16 bytes of a header: the magic, then type, id and size as
/// little-endian 32-bit words.
pub open spec fn header_bytes(cmd_type: u32, cmd_id: u32, data_size: u32) -> Seq<u8> {
    magic() + spec_u32_to_le_bytes(cmd_type) + spec_u32_to_le_bytes(cmd_id)
        + spec_u32_to_le_bytes(data_size)
}

/// The header that the bytes `b` hold, if they hold one: at least 16
/// bytes that start with the magic.
pub open spec fn parse_header_spec(b: Seq<u8>) -> Option<CommandHeader> {
    if b.len() < 16 || b.subrange(0, 4) != magic() {
        None
    } else {
        Some(
            CommandHeader {
                cmd_type: spec_u32_from_le_bytes(b.subrange(4, 8)),
                cmd_id: spec_u32_from_le_bytes(b.subrange(8, 12)),
                data_size: spec_u32_from_le_bytes(b.subrange(12, 16)),
            },
        )
    }
}

/// Builds a 16-byte command header.
pub fn build_header(cmd_type: u32, cmd_id: u32, data_size: u32) -> (buf: Vec<u8>)
    ensures
        buf@ == header_bytes(cmd_type, cmd_id, data_size),
        buf@.len() == 16,
{
    proof {
        vstd::bytes::lemma_auto_spec_u32_to_from_le_bytes();
    }
    let mut buf: Vec<u8> = Vec::with_capacity(16);
    buf.push(0x44);
    buf.push(0x42);
    buf.push(0x49);
    buf.push(0x30);
    let mut t = vstd::bytes::u32_to_le_bytes(cmd_type);
    let mut i = vstd::bytes::u32_to_le_bytes(cmd_id);
    let mut d = vstd::bytes::u32_to_le_bytes(data_size);
    buf.append(&mut t);
    buf.append(&mut i);
    buf.append(&mut d);
    proof {
        assert(buf@ =~= header_bytes(cmd_type, cmd_id, data_size));
    }
    buf
}

/// Reads a command header from `b`; `None` when `b` is short or does not
/// start with the magic.
pub fn parse_header(b: &[u8]) -> (h: Option<CommandHeader>)
    ensures
        h == parse_header_spec(b@),
{
    if b.len() < 16 {
        return None;
    }
    if !(b[0] == 0x44 && b[1] == 0x42 && b[2] == 0x49 && b[3] == 0x30) {
        proof {
            if b@.subrange(0, 4) == magic() {
                assert(b@.subrange(0, 4)[1] == b@[1]);
                assert(b@.subrange(0, 4)[2] == b@[2]);
                assert(b@.subrange(0, 4)[3] == b@[3]);
                assert(b@.subrange(0, 4)[0] == b@[0]);
            }
        }
        return None;
    }
    proof {
        assert(b@.subrange(0, 4) =~= magic());
    }
    let cmd_type = vstd::bytes::u32_from_le_bytes(vstd::slice::slice_subrange(b, 4, 8));
    let cmd_id = vstd::bytes::u32_from_le_bytes(vstd::slice::slice_subrange(b, 8, 12));
    let data_size = vstd::bytes::u32_from_le_bytes(vstd::slice::slice_subrange(b, 12, 16));
    Some(CommandHeader { cmd_type, cmd_id, data_size })
}

/// Reading a built header gives back its three fields.
pub proof fn law_header_roundtrip(cmd_type: u32, cmd_id: u32, data_size: u32)
    ensures
        parse_header_spec(header_bytes(cmd_type, cmd_id, data_size)) == Some(
            CommandHeader { cmd_type, cmd_id, data_size },
        ),
{
    vstd::bytes::lemma_auto_spec_u32_to_from_le_bytes();
    let b = header_bytes(cmd_type, cmd_id, data_size);
    assert(b.subrange(0, 4) =~= magic());
    assert(b.subrange(4, 8) =~= spec_u32_to_le_bytes(cmd_type));
    assert(b.subrange(8, 12) =~= spec_u32_to_le_bytes(cmd_id));
    assert(b.subrange(12, 16) =~= spec_u32_to_le_bytes(data_size));
}

/// Building a header from what 16 bytes were read as gives back those
/// bytes.
pub proof fn law_header_bytes_determined(b: Seq<u8>)
    requires
        b.len() == 16,
        parse_header_spec(b) is Some,
    ensures
        ({
            let h = parse_header_spec(b)->0;
            header_bytes(h.cmd_type, h.cmd_id, h.data_size) == b
        }),
{
    vstd::bytes::lemma_auto_spec_u32_to_from_le_bytes();
    let h = parse_header_spec(b)->0;
    assert(spec_u32_to_le_bytes(h.cmd_type) == b.subrange(4, 8));
    assert(spec_u32_to_le_bytes(h.cmd_id) == b.subrange(8, 12));
    assert(spec_u32_to_le_bytes(h.data_size) == b.subrange(12, 16));
    assert(header_bytes(h.cmd_type, h.cmd_id, h.data_size) =~= b);
}

/// What `String::from_utf8_lossy` makes of a byte string: its UTF-8
/// decoding, with U+FFFD in place of each invalid sequence.
pub uninterp spec fn utf8_lossy(bytes: Seq<u8>) -> Seq<char>;

/// Calls `String::from_utf8_lossy` and takes ownership of the text. The
/// contract claims that the result is `utf8_lossy` of the bytes, and, as the
/// documentation of `from_utf8_lossy` says, exactly their decoding when they
/// are valid UTF-8.
#[verifier::external_body]
fn from_utf8_lossy(bytes: &[u8]) -> (s: String)
    ensures
        s@ == utf8_lossy(bytes@),
        valid_utf8(bytes@) ==> s@ == decode_utf8(bytes@),
{
    String::from_utf8_lossy(bytes).into_owned()
}

/// The body of a file-range command: how many bytes to send, from which
/// offset, of which file.
#[derive(Debug, PartialEq, Eq)]
pub struct FileRangeRequest {
    pub range_size: u32,
    pub range_offset: u64,
    pub name: String,
}

/// Reads a file-range request: the size (little-endian `u32` at 0), the
/// offset (little-endian `u64` at 4), a name length at 12 that is not
/// relied on, and the name, which is every byte from 16 on. `None` when
/// fewer than 16 bytes came.
pub fn parse_file_range(b: &[u8]) -> (r: Option<FileRangeRequest>)
    ensures
        match r {
            Some(req) => {
                &&& b@.len() >= 16
                &&& req.range_size == spec_u32_from_le_bytes(b@.subrange(0, 4))
                &&& req.range_offset == spec_u64_from_le_bytes(b@.subrange(4, 12))
                &&& req.name@ == utf8_lossy(b@.subrange(16, b@.len() as int))
                &&& valid_utf8(b@.subrange(16, b@.len() as int)) ==> req.name@ == decode_utf8(
                    b@.subrange(16, b@.len() as int),
                )
            },
            None => b@.len() < 16,
        },
{
    if b.len() < 16 {
        return None;
    }
    let range_size = vstd::bytes::u32_from_le_bytes(vstd::slice::slice_subrange(b, 0, 4));
    let range_offset = vstd::bytes::u64_from_le_bytes(vstd::slice::slice_subrange(b, 4, 12));
    let name = from_utf8_lossy(vstd::slice::slice_subrange(b, 16, b.len()));
    Some(FileRangeRequest { range_size, range_offset, name })
}

/// The file-list text: every name followed by a newline, in list order.
pub open spec fn names_text(names: Seq<Seq<char>>) -> Seq<char>
    decreases names.len(),
{
    if names.len() == 0 {
        Seq::empty()
    } else {
        names_text(names.drop_last()) + names.last().push('\n')
    }
}

/// The bytes of the file-list reply: the UTF-8 of the file-list text.
pub fn list_payload(files: &FileList) -> (payload: Vec<u8>)
    ensures
        payload@ == encode_utf8(names_text(entry_names(files@))),
{
    let mut text = String::new();
    let n = files.len();
    let mut i: usize = 0;
    proof {
        reveal_strlit("\n");
        assert("\n"@ =~= seq!['\n']);
        assert(entry_names(files@).take(0) =~= Seq::<Seq<char>>::empty());
    }
    while i < n
        invariant
            i <= n == files@.len(),
            text@ == names_text(entry_names(files@).take(i as int)),
        decreases n - i,
    {
        let e = files.entry(i);
        text.append(e.name.as_str());
        text.append("\n");
        proof {
            reveal_strlit("\n");
            assert("\n"@ =~= seq!['\n']);
            let names = entry_names(files@);
            assert(names.take(i + 1).drop_last() =~= names.take(i as int));
            assert(names.take(i + 1).last() == e.name@);
            assert(text@ =~= names_text(names.take(i + 1)));
        }
        i = i + 1;
    }
    proof {
        assert(entry_names(files@).take(n as int) =~= entry_names(files@));
    }
    text.as_str().as_bytes_vec()
}

/// The next chunk of a range with `remaining` bytes left: at most 1 MiB.
pub fn chunk_size(remaining: u64) -> (n: usize)
    ensures
        n as int == if remaining < BUFFER_SEGMENT_DATA_SIZE {
            remaining as int
        } else {
            BUFFER_SEGMENT_DATA_SIZE as int
        },
{
    if remaining < BUFFER_SEGMENT_DATA_SIZE as u64 {
        remaining as usize
    } else {
        BUFFER_SEGMENT_DATA_SIZE
    }
}

/// Whether progress is reported after a chunk: when the bytes sent have just
/// crossed a 4 MiB mark, and when the range is done.
pub open spec fn reports_progress(sent: u64, remaining: u64) -> bool {
    sent % PROGRESS_INTERVAL < BUFFER_SEGMENT_DATA_SIZE || remaining == 0
}

/// Decides whether to report progress after a chunk.
pub fn should_report_progress(sent: u64, remaining: u64) -> (b: bool)
    ensures
        b == reports_progress(sent, remaining),
{
    sent % PROGRESS_INTERVAL < BUFFER_SEGMENT_DATA_SIZE as u64 || remaining == 0
}

} // verus!
