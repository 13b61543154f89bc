//! The wire body of one delivery attempt.
//!
//! A batch travels as the plain concatenation of its records, or, when the
//! configured compression mode selects it, as one zstd frame over that
//! concatenation, flagged for the `Content-Encoding` header. The receiving
//! side inverts the frame; compression is whole-batch and lossless.
use vstd::prelude::*;

verus! {

/// The compression level handed to the encoder.
pub const ZSTD_LEVEL: i32 = 3;

/// A failure while reading a wire body.
#[derive(Clone, Copy, PartialEq, Eq, Structural, Debug)]
pub enum CodecError {
    /// The received body is not a zstd frame the decoder accepts.
    Decompress,
}

/// The concatenation of a run of records.
pub open spec fn concat_of(lines: Seq<Seq<u8>>) -> Seq<u8>
    decreases lines.len(),
{
    if lines.len() == 0 {
        Seq::empty()
    } else {
        lines[0] + concat_of(lines.drop_first())
    }
}

pub proof fn lemma_concat_of_push(lines: Seq<Seq<u8>>, x: Seq<u8>)
    ensures
        concat_of(lines.push(x)) == concat_of(lines) + x,
    decreases lines.len(),
{
    let t = lines.push(x);
    assert(concat_of(t) == t[0] + concat_of(t.drop_first()));
    if lines.len() == 0 {
        assert(t.drop_first() =~= Seq::<Seq<u8>>::empty());
        assert(concat_of(t) =~= concat_of(lines) + x);
    } else {
        assert(t[0] == lines[0]);
        assert(t.drop_first() =~= lines.drop_first().push(x));
        lemma_concat_of_push(lines.drop_first(), x);
        assert(concat_of(lines) == lines[0] + concat_of(lines.drop_first()));
        assert(concat_of(t) =~= concat_of(lines) + x);
    }
}

/// The records of a batch, as byte sequences.
pub open spec fn views_of(lines: Seq<Vec<u8>>) -> Seq<Seq<u8>> {
    lines.map_values(|l: Vec<u8>| l@)
}

/// Joins a batch's records into one body, in batch order with nothing
/// added between records: each record already carries its own newline.
pub fn concat_records(lines: &Vec<Vec<u8>>) -> (body: Vec<u8>)
    ensures
        body@ == concat_of(views_of(lines@)),
{
    let mut body: Vec<u8> = Vec::new();
    let mut i: usize = 0;
    proof {
        assert(views_of(lines@).take(0) =~= Seq::<Seq<u8>>::empty());
        assert(body@ =~= concat_of(views_of(lines@).take(0)));
    }
    while i < lines.len()
        invariant
            i <= lines@.len(),
            body@ == concat_of(views_of(lines@).take(i as int)),
        decreases lines@.len() - i,
    {
        body.extend_from_slice(lines[i].as_slice());
        proof {
            assert(views_of(lines@).take(i + 1) =~= views_of(lines@).take(i as int).push(
                lines@[i as int]@,
            ));
            lemma_concat_of_push(views_of(lines@).take(i as int), lines@[i as int]@);
        }
        i = i + 1;
    }
    proof {
        assert(views_of(lines@).take(lines@.len() as int) =~= views_of(lines@));
    }
    body
}

/// The zstd frame the encoder produces for the given bytes at the given
/// level: a function of its arguments alone.
pub uninterp spec fn zstd_frame_of(data: Seq<u8>, level: int) -> Seq<u8>;

/// Relies on zstd::stream::encode_all: the result is one zstd frame over
/// the input bytes, determined by the input and the level. The call
/// succeeds on every input: the destination is an in-memory buffer whose
/// writes cannot fail, and the library clamps an out-of-range level
/// instead of rejecting it (allocation failure is left aside, as it is
/// throughout the library).
#[verifier::external_body]
fn zstd_compress(data: &Vec<u8>, level: i32) -> (r: Option<Vec<u8>>)
    ensures
        r is Some,
        r->0@ == zstd_frame_of(data@, level as int),
{
    zstd::stream::encode_all(&data[..], level).ok()
}

/// Relies on zstd::stream::decode_all: decoding succeeds on any frame
/// zstd::stream::encode_all produced and yields the bytes that were
/// compressed (compression is lossless).
#[verifier::external_body]
fn zstd_decompress(data: &Vec<u8>) -> (r: Option<Vec<u8>>)
    ensures
        forall|d: Seq<u8>, level: int|
            data@ == #[trigger] zstd_frame_of(d, level) ==> r is Some && r->0@ == d,
{
    zstd::stream::decode_all(&data[..]).ok()
}

/// Maps an ASCII capital to its small form and leaves every other byte.
pub open spec fn ascii_lower(b: u8) -> u8 {
    if 65u8 <= b && b <= 90u8 {
        (b + 32) as u8
    } else {
        b
    }
}

/// The configured compression mode selects the zstd path exactly when it
/// spells "zstd", in any mix of ASCII case.
pub open spec fn is_zstd_mode_spec(s: Seq<u8>) -> bool {
    &&& s.len() == 4
    &&& ascii_lower(s[0]) == 122u8
    &&& ascii_lower(s[1]) == 115u8
    &&& ascii_lower(s[2]) == 116u8
    &&& ascii_lower(s[3]) == 100u8
}

/// Whether the configured mode selects compression.
pub fn is_zstd_mode(mode: &[u8]) -> (r: bool)
    ensures
        r == is_zstd_mode_spec(mode@),
{
    mode.len() == 4 && (mode[0] == 122u8 || mode[0] == 90u8) && (mode[1] == 115u8 || mode[1]
        == 83u8) && (mode[2] == 116u8 || mode[2] == 84u8) && (mode[3] == 100u8 || mode[3] == 68u8)
}

/// One prepared wire body: the bytes to send and whether they carry the
/// zstd `Content-Encoding` marker.
pub struct WireBody {
    pub bytes: Vec<u8>,
    pub zstd: bool,
}

/// Builds the wire body for one batch: the records' concatenation, framed
/// by the compressor exactly when the mode selects it.
pub fn build_body(lines: &Vec<Vec<u8>>, compression: &[u8]) -> (r: WireBody)
    ensures
        r.zstd == is_zstd_mode_spec(compression@),
        !is_zstd_mode_spec(compression@) ==> r.bytes@ == concat_of(views_of(lines@)),
        is_zstd_mode_spec(compression@) ==> r.bytes@ == zstd_frame_of(
            concat_of(views_of(lines@)),
            ZSTD_LEVEL as int,
        ),
{
    let body = concat_records(lines);
    if is_zstd_mode(compression) {
        match zstd_compress(&body, ZSTD_LEVEL) {
            Some(compressed) => WireBody { bytes: compressed, zstd: true },
            None => {
                proof {
                    assert(false);
                }
                WireBody { bytes: Vec::new(), zstd: true }
            },
        }
    } else {
        WireBody { bytes: body, zstd: false }
    }
}

/// Reads a received wire body back into the batch concatenation it was
/// compressed from: the inverse of the zstd path of [`build_body`].
/// Succeeds on every frame the encoder produces.
pub fn decompress_body(data: &Vec<u8>) -> (r: Result<Vec<u8>, CodecError>)
    ensures
        forall|d: Seq<u8>, level: int|
            data@ == #[trigger] zstd_frame_of(d, level) ==> r is Ok && r->Ok_0@ == d,
        r is Err ==> r->Err_0 == CodecError::Decompress,
{
    match zstd_decompress(data) {
        Some(v) => Ok(v),
        None => Err(CodecError::Decompress),
    }
}

/// Law: compressing any bytes and decompressing the frame yields the
/// original bytes.
pub fn compress_roundtrip(data: &Vec<u8>) -> (r: Vec<u8>)
    ensures
        r@ == data@,
{
    let frame = match zstd_compress(data, ZSTD_LEVEL) {
        Some(f) => f,
        None => {
            proof {
                assert(false);
            }
            Vec::new()
        },
    };
    match decompress_body(&frame) {
        Ok(v) => v,
        Err(_) => {
            proof {
                assert(false);
            }
            Vec::new()
        },
    }
}

/// A delivery counts as accepted exactly when the remote answered with a
/// success status.
pub fn status_is_success(code: u16) -> (r: bool)
    ensures
        r == (200 <= code && code < 300),
{
    200 <= code && code < 300
}

} // verus!
