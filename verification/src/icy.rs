//! The SHOUTcast writer: the ICY handshake, the in-band metadata block, and
//! the rule that interleaves one metadata block into the audio stream every
//! fixed number of bytes.

use vstd::prelude::*;
use vstd::string::StringSliceAdditionalSpecFns;
use crate::errors::StreamError;
use crate::http::HttpRequest;
use crate::track::spec_lower_char;

verus! {

/// Characters lowered one by one: how header names compare.
pub open spec fn spec_lower_chars(s: Seq<char>) -> Seq<char> {
    s.map_values(|c: char| spec_lower_char(c))
}

/// The headers of a request as character names and raw value bytes.
pub open spec fn spec_headers_view(headers: Seq<(String, Vec<u8>)>) -> Seq<(Seq<char>, Seq<u8>)> {
    headers.map_values(|h: (String, Vec<u8>)| (h.0@, h.1@))
}

/// The value of the first header whose name equals `name` up to ASCII
/// case, if any.
pub open spec fn spec_header_first(headers: Seq<(Seq<char>, Seq<u8>)>, name: Seq<char>) -> Option<
    Seq<u8>,
>
    decreases headers.len(),
{
    if headers.len() == 0 {
        None
    } else if spec_lower_chars(headers.first().0) == spec_lower_chars(name) {
        Some(headers.first().1)
    } else {
        spec_header_first(headers.drop_first(), name)
    }
}

/// Whether two strings are equal up to ASCII case.
fn eq_ignore_case(a: &str, b: &str) -> (r: bool)
    ensures
        r == (spec_lower_chars(a@) == spec_lower_chars(b@)),
{
    let na = a.unicode_len();
    let nb = b.unicode_len();
    if na != nb {
        proof {
            assert(spec_lower_chars(a@).len() == a@.len());
            assert(spec_lower_chars(b@).len() == b@.len());
        }
        return false;
    }
    let mut i: usize = 0;
    while i < na
        invariant
            i <= na,
            na == a@.len(),
            na == b@.len(),
            forall|k: int|
                0 <= k < i ==> spec_lower_char(#[trigger] a@[k]) == spec_lower_char(b@[k]),
        decreases na - i,
    {
        let ca = a.get_char(i);
        let cb = b.get_char(i);
        let la = if 'A' <= ca && ca <= 'Z' {
            (((ca as u8) + 32) as u8) as char
        } else {
            ca
        };
        let lb = if 'A' <= cb && cb <= 'Z' {
            (((cb as u8) + 32) as u8) as char
        } else {
            cb
        };
        if la != lb {
            proof {
                assert(spec_lower_chars(a@)[i as int] != spec_lower_chars(b@)[i as int]);
            }
            return false;
        }
        i = i + 1;
    }
    proof {
        assert(spec_lower_chars(a@) =~= spec_lower_chars(b@));
    }
    true
}

/// The value bytes of the first header named `name` up to ASCII case.
pub fn header_value<'a>(request: &'a HttpRequest, name: &str) -> (r: Option<&'a Vec<u8>>)
    ensures
        match r {
            Some(v) => spec_header_first(spec_headers_view(request.headers@), name@) == Some(v@),
            None => spec_header_first(spec_headers_view(request.headers@), name@) is None,
        },
{
    let ghost all = spec_headers_view(request.headers@);
    proof {
        assert(all.skip(0) =~= all);
    }
    let n = request.headers.len();
    let mut i: usize = 0;
    while i < n
        invariant
            i <= n,
            n == request.headers@.len(),
            all == spec_headers_view(request.headers@),
            spec_header_first(all, name@) == spec_header_first(all.skip(i as int), name@),
        decreases n - i,
    {
        let hit = eq_ignore_case(request.headers[i].0.as_str(), name);
        proof {
            assert(all.skip(i as int).first() == all[i as int]);
            assert(all.skip(i as int).drop_first() =~= all.skip(i as int + 1));
        }
        if hit {
            return Some(&request.headers[i].1);
        }
        i = i + 1;
    }
    proof {
        assert(all.skip(n as int) =~= Seq::<(Seq<char>, Seq<u8>)>::empty());
    }
    None
}

/// Whether the client asked for in-band metadata: an `icy-metadata` header
/// (under any ASCII casing of the name, as `Icy-MetaData` is) whose value
/// is `1`.
pub fn meta_data_support(request: &HttpRequest) -> (r: bool)
    ensures
        r == (match spec_header_first(spec_headers_view(request.headers@), "icy-metadata"@) {
            Some(v) => v == seq![49u8],
            None => false,
        }),
{
    match header_value(request, "icy-metadata") {
        Some(v) => {
            if v.len() == 1 {
                let hit = v[0] == 49;
                proof {
                    if hit {
                        assert(v@ =~= seq![49u8]);
                    }
                }
                hit
            } else {
                false
            }
        },
        None => false,
    }
}

/// The session result carries exactly the characters of the header bytes.
pub open spec fn spec_session_value_ok(r: Result<Option<String>, StreamError>, b: Seq<u8>) -> bool {
    match r {
        Ok(Some(sid)) => sid@ == crate::http::spec_ascii_chars(b),
        _ => false,
    }
}

/// The reconnect session identifier, when the client sent one whose bytes
/// are printable ASCII (or space); other bytes in that header are refused.
pub fn session_id_header(request: &HttpRequest) -> (r: Result<Option<String>, StreamError>)
    ensures
        spec_header_first(spec_headers_view(request.headers@), "x-playback-session-id"@) is None
            ==> r matches Ok(None),
        spec_header_first(spec_headers_view(request.headers@), "x-playback-session-id"@) matches Some(
            b,
        ) ==> ({
            &&& (forall|k: int| 0 <= k < b.len() ==> 32 <= #[trigger] b[k] <= 126)
                ==> spec_session_value_ok(r, b)
            &&& !(forall|k: int| 0 <= k < b.len() ==> 32 <= #[trigger] b[k] <= 126) ==> (r matches
                Err(e) && e is IoError)
        }),
{
    let v = match header_value(request, "x-playback-session-id") {
        Some(v) => v,
        None => {
            return Ok(None);
        },
    };
    let n = v.len();
    let mut i: usize = 0;
    let mut out = String::new();
    while i < n
        invariant
            i <= n,
            n == v@.len(),
            spec_header_first(spec_headers_view(request.headers@), "x-playback-session-id"@)
                == Some(v@),
            forall|k: int| 0 <= k < i ==> 32 <= #[trigger] v@[k] <= 126,
            out@ == crate::http::spec_ascii_chars(v@.take(i as int)),
        decreases n - i,
    {
        let b = v[i];
        if b < 32 || b > 126 {
            proof {
                assert(!(32 <= v@[i as int] <= 126));
                assert(exists|k: int| 0 <= k < v@.len() && !(32 <= #[trigger] v@[k] <= 126));
            }
            return Err(StreamError::IoError("header decode error".to_owned()));
        }
        crate::strings::string_push(&mut out, b as char);
        proof {
            assert(crate::http::spec_ascii_chars(v@.take(i + 1))
                =~= crate::http::spec_ascii_chars(v@.take(i as int)).push(v@[i as int] as char));
        }
        i = i + 1;
    }
    proof {
        assert(v@.take(n as int) =~= v@);
    }
    Ok(Some(out))
}

/// The bytes of the ICY handshake: the status line, the content type, the
/// station name, and — when the client asked for metadata — the metadata
/// announcement with its interval, each line ended by CR LF, the whole
/// ended by a blank line.
pub open spec fn spec_start_response(content_type: Seq<u8>, name: Seq<u8>, metadata: bool) -> Seq<
    u8,
> {
    let head = "HTTP/1.0 200 OK\r\n".spec_bytes() + "Content-Type: ".spec_bytes() + content_type
        + "\r\n".spec_bytes() + "icy-name: ".spec_bytes() + name + "\r\n".spec_bytes();
    let meta_part = if metadata {
        "icy-metadata: 1\r\n".spec_bytes() + "icy-metaint: ".spec_bytes() + "65536".spec_bytes()
            + "\r\n".spec_bytes()
    } else {
        Seq::empty()
    };
    head + meta_part + "\r\n".spec_bytes()
}

/// Appends the UTF-8 bytes of `s` to `dst`.
pub(crate) fn push_str_bytes(dst: &mut Vec<u8>, s: &str)
    ensures
        final(dst)@ == old(dst)@ + s.spec_bytes(),
{
    let b = s.as_bytes();
    let n = b.len();
    let mut i: usize = 0;
    while i < n
        invariant
            i <= n,
            n == b@.len(),
            b@ == s.spec_bytes(),
            dst@ =~= old(dst)@ + b@.take(i as int),
        decreases n - i,
    {
        dst.push(b[i]);
        proof {
            assert(old(dst)@ + b@.take(i + 1) =~= (old(dst)@ + b@.take(i as int)).push(
                b@[i as int],
            ));
        }
        i = i + 1;
    }
    proof {
        assert(old(dst)@ + b@.take(n as int) =~= old(dst)@ + b@);
    }
}

/// Builds the ICY handshake for a station.
pub fn start_response(content_type: &str, name: &str, metadata: bool) -> (r: Vec<u8>)
    ensures
        r@ == spec_start_response(content_type.spec_bytes(), name.spec_bytes(), metadata),
{
    let mut out: Vec<u8> = Vec::new();
    push_str_bytes(&mut out, "HTTP/1.0 200 OK\r\n");
    push_str_bytes(&mut out, "Content-Type: ");
    push_str_bytes(&mut out, content_type);
    push_str_bytes(&mut out, "\r\n");
    push_str_bytes(&mut out, "icy-name: ");
    push_str_bytes(&mut out, name);
    push_str_bytes(&mut out, "\r\n");
    if metadata {
        push_str_bytes(&mut out, "icy-metadata: 1\r\n");
        push_str_bytes(&mut out, "icy-metaint: ");
        push_str_bytes(&mut out, "65536");
        push_str_bytes(&mut out, "\r\n");
    }
    push_str_bytes(&mut out, "\r\n");
    proof {
        assert(out@ =~= spec_start_response(
            content_type.spec_bytes(),
            name.spec_bytes(),
            metadata,
        ));
    }
    out
}

/// Number of audio bytes between two in-band metadata blocks.
pub const META_DATA_INTERVAL: usize = 65536;

/// Maximum size of the metadata text with its padding: a multiple of 16
/// whose sixteenth fits in one byte.
pub const MAX_META_DATA_SIZE: usize = 4080;

/// The bytes of `StreamTitle='`, the opening of the metadata text.
pub open spec fn spec_stream_title_prefix() -> Seq<u8> {
    seq![83u8, 116u8, 114u8, 101u8, 97u8, 109u8, 84u8, 105u8, 116u8, 108u8, 101u8, 61u8, 39u8]
}

/// The bytes of `';`, the closing of the metadata text.
pub open spec fn spec_stream_title_suffix() -> Seq<u8> {
    seq![39u8, 59u8]
}

/// The bytes of ` - `, the separator between artist and title.
pub open spec fn spec_title_separator() -> Seq<u8> {
    seq![32u8, 45u8, 32u8]
}

/// The metadata text for a track: `StreamTitle='<artist> - <title>';`,
/// with the artist-and-title body cut down so that the whole text never
/// exceeds `MAX_META_DATA_SIZE` bytes; the closing quote and semicolon are
/// kept even when the body is cut.
pub open spec fn spec_stream_title_text(artist: Seq<u8>, title: Seq<u8>) -> Seq<u8> {
    let body = artist + spec_title_separator() + title;
    let capped = if body.len() > MAX_META_DATA_SIZE - 15 {
        body.take(MAX_META_DATA_SIZE - 15)
    } else {
        body
    };
    spec_stream_title_prefix() + capped + spec_stream_title_suffix()
}

/// NUL padding that rounds `len` up to a multiple of 16; zero when `len`
/// already is one.
pub open spec fn spec_padding_len(len: int) -> int {
    if len % 16 == 0 {
        0
    } else {
        16 - len % 16
    }
}

/// The full metadata block: one length byte holding the sixteenth of the
/// padded text length, the text, then the NUL padding.
pub open spec fn spec_metadata_block(artist: Seq<u8>, title: Seq<u8>) -> Seq<u8> {
    let text = spec_stream_title_text(artist, title);
    let pad = spec_padding_len(text.len() as int);
    seq![(((text.len() + pad) / 16) as u8)] + text + Seq::new(pad as nat, |i: int| 0u8)
}

/// Builds the metadata block for the current artist and title. The length
/// byte times 16 always equals the length of text plus padding, and the
/// whole block never exceeds 4081 bytes.
pub fn metadata_block(artist: &Vec<u8>, title: &Vec<u8>) -> (r: Vec<u8>)
    ensures
        r@ == spec_metadata_block(artist@, title@),
        16 * (r@[0] as int) == r@.len() - 1,
        r@.len() <= 4081,
        (r@.len() - 1) % 16 == 0,
{
    let mut text: Vec<u8> = Vec::new();
    // StreamTitle='
    text.push(83);
    text.push(116);
    text.push(114);
    text.push(101);
    text.push(97);
    text.push(109);
    text.push(84);
    text.push(105);
    text.push(116);
    text.push(108);
    text.push(101);
    text.push(61);
    text.push(39);
    proof {
        assert(text@ =~= spec_stream_title_prefix());
    }
    let mut body: Vec<u8> = Vec::new();
    push_bytes(&mut body, artist);
    body.push(32);
    body.push(45);
    body.push(32);
    push_bytes(&mut body, title);
    proof {
        assert(body@ =~= artist@ + spec_title_separator() + title@);
    }
    let cap = MAX_META_DATA_SIZE - 15;
    if body.len() > cap {
        body.truncate(cap);
    }
    push_bytes(&mut text, &body);
    // ';
    text.push(39);
    text.push(59);
    proof {
        assert(text@ =~= spec_stream_title_text(artist@, title@));
    }
    let pad = if text.len() % 16 == 0 {
        0
    } else {
        16 - text.len() % 16
    };
    let mut block: Vec<u8> = Vec::new();
    block.push(((text.len() + pad) / 16) as u8);
    push_bytes(&mut block, &text);
    let mut i: usize = 0;
    while i < pad
        invariant
            i <= pad,
            pad < 16,
            block@ =~= seq![(((text@.len() + pad) / 16) as u8)] + text@ + Seq::new(
                i as nat,
                |k: int| 0u8,
            ),
        decreases pad - i,
    {
        block.push(0);
        proof {
            assert(Seq::new((i + 1) as nat, |k: int| 0u8) =~= Seq::new(i as nat, |k: int| 0u8).push(
                0u8,
            ));
        }
        i = i + 1;
    }
    proof {
        assert(block@ =~= spec_metadata_block(artist@, title@));
        assert((text@.len() + pad) % 16 == 0);
        assert((text@.len() + pad) / 16 <= 255);
    }
    block
}

/// Appends all of `src` to `dst`.
pub fn push_bytes(dst: &mut Vec<u8>, src: &Vec<u8>)
    ensures
        final(dst)@ == old(dst)@ + src@,
{
    let mut i: usize = 0;
    while i < src.len()
        invariant
            i <= src@.len(),
            dst@ =~= old(dst)@ + src@.take(i as int),
        decreases src@.len() - i,
    {
        dst.push(src[i]);
        proof {
            assert(old(dst)@ + src@.take(i + 1) =~= (old(dst)@ + src@.take(i as int)).push(
                src@[i as int],
            ));
        }
        i = i + 1;
    }
    proof {
        assert(old(dst)@ + src@.take(src@.len() as int) =~= old(dst)@ + src@);
    }
}

/// Appends `src[from..to]` to `dst`.
fn push_byte_range(dst: &mut Vec<u8>, src: &Vec<u8>, from: usize, to: usize)
    requires
        from <= to <= src@.len(),
    ensures
        final(dst)@ == old(dst)@ + src@.subrange(from as int, to as int),
{
    let mut i: usize = from;
    while i < to
        invariant
            from <= i <= to <= src@.len(),
            dst@ =~= old(dst)@ + src@.subrange(from as int, i as int),
        decreases to - i,
    {
        dst.push(src[i]);
        proof {
            assert(old(dst)@ + src@.subrange(from as int, i + 1) =~= (old(dst)@ + src@.subrange(
                from as int,
                i as int,
            )).push(src@[i as int]));
        }
        i = i + 1;
    }
}

/// What the writer sends for one frame, starting `counter` audio bytes
/// before the next metadata block is due: the audio bytes in order, with a
/// copy of `block` inserted each time the counter runs out, and the counter
/// left for the next frame.
pub open spec fn spec_write_frame(frame: Seq<u8>, counter: int, block: Seq<u8>) -> (Seq<u8>, int)
    recommends
        0 <= counter <= META_DATA_INTERVAL,
    decreases frame.len(), (if counter <= 0 { 1int } else { 0int }),
{
    if frame.len() == 0 {
        (Seq::empty(), counter)
    } else if counter <= 0 {
        let rec = spec_write_frame(frame, META_DATA_INTERVAL as int, block);
        (block + rec.0, rec.1)
    } else if frame.len() <= counter {
        (frame, counter - frame.len())
    } else {
        let rec = spec_write_frame(frame.skip(counter), META_DATA_INTERVAL as int, block);
        (frame.take(counter) + block + rec.0, rec.1)
    }
}

/// Writes one frame's payload into `out`, inserting the metadata block each
/// time `META_DATA_INTERVAL` audio bytes have passed since the last block;
/// returns how many audio bytes remain before the next block is due.
pub fn write_frame(frame: &Vec<u8>, bytes_before_next_meta_data: usize, block: &Vec<u8>, out: &mut Vec<
    u8,
>) -> (r: usize)
    requires
        bytes_before_next_meta_data <= META_DATA_INTERVAL,
    ensures
        ({
            let s = spec_write_frame(frame@, bytes_before_next_meta_data as int, block@);
            final(out)@ == old(out)@ + s.0 && r == s.1
        }),
        r <= META_DATA_INTERVAL,
{
    proof {
        assert(frame@.skip(0) =~= frame@);
    }
    write_frame_from(frame, 0, bytes_before_next_meta_data, block, out)
}

/// The recursive worker behind `write_frame`, walking `frame` from `from`.
fn write_frame_from(
    frame: &Vec<u8>,
    from: usize,
    counter: usize,
    block: &Vec<u8>,
    out: &mut Vec<u8>,
) -> (r: usize)
    requires
        from <= frame@.len(),
        counter <= META_DATA_INTERVAL,
    ensures
        ({
            let s = spec_write_frame(frame@.skip(from as int), counter as int, block@);
            final(out)@ == old(out)@ + s.0 && r == s.1
        }),
        r <= META_DATA_INTERVAL,
    decreases frame@.len() - from, (if counter == 0 { 1int } else { 0int }),
{
    let len = frame.len();
    let ghost rest = frame@.skip(from as int);
    if from == len {
        proof {
            assert(rest =~= Seq::<u8>::empty());
            assert(old(out)@ + Seq::<u8>::empty() =~= old(out)@);
        }
        return counter;
    }
    if counter == 0 {
        push_bytes(out, block);
        let r = write_frame_from(frame, from, META_DATA_INTERVAL, block, out);
        proof {
            let rec = spec_write_frame(rest, META_DATA_INTERVAL as int, block@);
            assert(out@ =~= old(out)@ + (block@ + rec.0));
        }
        return r;
    }
    if len - from <= counter {
        push_byte_range(out, frame, from, len);
        proof {
            assert(frame@.subrange(from as int, len as int) =~= rest);
        }
        return counter - (len - from);
    }
    push_byte_range(out, frame, from, from + counter);
    push_bytes(out, block);
    let r = write_frame_from(frame, from + counter, META_DATA_INTERVAL, block, out);
    proof {
        let rec = spec_write_frame(frame@.skip(from + counter as int), META_DATA_INTERVAL as int, block@);
        assert(frame@.skip(from + counter as int) =~= rest.skip(counter as int));
        assert(frame@.subrange(from as int, from + counter as int) =~= rest.take(counter as int));
        assert(out@ =~= old(out)@ + (rest.take(counter as int) + block@ + spec_write_frame(
            rest.skip(counter as int),
            META_DATA_INTERVAL as int,
            block@,
        ).0));
    }
    r
}

/// The audio cadence of the writer: over one frame, the counter it returns
/// is determined by the counter it started with and the frame length alone,
/// modulo the metadata interval — so between two consecutive metadata
/// blocks exactly `META_DATA_INTERVAL` audio bytes are written, wherever
/// the frame boundaries fall.
pub proof fn lemma_metadata_cadence(frame: Seq<u8>, counter: int, block: Seq<u8>)
    requires
        0 <= counter <= META_DATA_INTERVAL,
    ensures
        ({
            let s = spec_write_frame(frame, counter, block);
            s.1 == if frame.len() == 0 {
                counter
            } else {
                (counter - frame.len()) % (META_DATA_INTERVAL as int)
            }
        }),
    decreases frame.len(), (if counter <= 0 { 1int } else { 0int }),
{
    let s = spec_write_frame(frame, counter, block);
    if frame.len() == 0 {
    } else if counter <= 0 {
        lemma_metadata_cadence(frame, META_DATA_INTERVAL as int, block);
        assert(((META_DATA_INTERVAL as int) - frame.len()) % (META_DATA_INTERVAL as int) == (0
            - frame.len()) % (META_DATA_INTERVAL as int)) by {
            vstd::arithmetic::div_mod::lemma_mod_add_multiples_vanish(
                0 - frame.len(),
                META_DATA_INTERVAL as int,
            );
        }
    } else if frame.len() <= counter {
        if frame.len() < counter {
            vstd::arithmetic::div_mod::lemma_small_mod(
                (counter - frame.len()) as nat,
                META_DATA_INTERVAL as nat,
            );
        } else {
            assert((counter - frame.len()) % (META_DATA_INTERVAL as int) == 0);
        }
    } else {
        lemma_metadata_cadence(frame.skip(counter), META_DATA_INTERVAL as int, block);
        let m = META_DATA_INTERVAL as int;
        assert(frame.skip(counter).len() == frame.len() - counter);
        assert((m - (frame.len() - counter)) % m == (counter - frame.len()) % m) by {
            vstd::arithmetic::div_mod::lemma_mod_add_multiples_vanish(counter - frame.len(), m);
        }
    }
}

/// The metadata block still owed when the stream ends: the audio cadence
/// promises a block after each full interval, so a stream that ends exactly
/// on the interval boundary writes that one last block before closing.
/// (The per-frame writer defers the boundary block to the next frame; at
/// end-of-stream there is no next frame, so the owed block is flushed
/// here.)
pub fn end_of_stream_block(bytes_before_next_meta_data: usize, block: &Vec<u8>) -> (r: Vec<u8>)
    ensures
        r@ == (if bytes_before_next_meta_data == 0 {
            block@
        } else {
            Seq::<u8>::empty()
        }),
{
    let mut out: Vec<u8> = Vec::new();
    if bytes_before_next_meta_data == 0 {
        push_bytes(&mut out, block);
        proof {
            assert(Seq::<u8>::empty() + block@ =~= block@);
        }
    }
    out
}

} // verus!
