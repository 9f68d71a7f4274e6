//! The on-disk record of a cached remote resource: the file metadata, the
//! cache record kept beside each payload with its freshness rule, the JSON
//! form the record is written in, and the name a resource is cached under.

use vstd::prelude::*;
use vstd::string::{StringExecFns, StringSliceAdditionalSpecFns};
use crate::config::{spec_digit_char, spec_digits, u64_to_string};
use crate::errors::StreamError;
use crate::strings::{clone_string, string_push};

verus! {

/// What a file provider reports about one file: its location, its
/// last-modified time in milliseconds since the epoch, its size, and its
/// entity tag when the provider gives one.
pub struct FileMetadata {
    pub location: String,
    pub last_modified: u64,
    pub size: u64,
    pub e_tag: Option<String>,
}

/// The record kept beside a cached resource: the file metadata, where the
/// payload and the record itself live, and when the record's freshness
/// runs out.
pub struct Meta {
    pub meta_data: FileMetadata,
    pub resource_path: String,
    pub meta_path: String,
    pub expires: Option<u64>,
    pub creation_time: u64,
}

impl Meta {
    /// The record path that belongs to a resource path: the resource path
    /// with the record suffix appended.
    pub fn meta_path(resource_path: &str) -> (r: String)
        ensures
            r@ == resource_path@ + ".meta"@,
    {
        let mut p = resource_path.to_owned();
        p.append(".meta");
        p
    }

    /// A fresh record for a resource cached now: with a freshness lifetime
    /// the record expires that many seconds from now, without one it has no
    /// expiry of its own.
    pub fn new(
        resource_path: String,
        meta_data: FileMetadata,
        freshness_lifetime: Option<u64>,
        now: u64,
    ) -> (r: Meta)
        requires
            freshness_lifetime matches Some(l) ==> now + l <= u64::MAX,
        ensures
            r.meta_data == meta_data,
            r.resource_path@ == resource_path@,
            r.meta_path@ == resource_path@ + ".meta"@,
            r.creation_time == now,
            r.expires == (match freshness_lifetime {
                Some(l) => Some((now + l) as u64),
                None => None::<u64>,
            }),
    {
        let meta_path = Meta::meta_path(resource_path.as_str());
        let expires = match freshness_lifetime {
            Some(l) => Some(now + l),
            None => None,
        };
        Meta { meta_data, resource_path, meta_path, expires, creation_time: now }
    }

    /// Whether the cached resource is still fresh at `now`: a lifetime
    /// handed in overrides the record's own expiry; without either, the
    /// resource is never fresh.
    pub fn is_fresh(&self, freshness_lifetime: Option<u64>, now: u64) -> (r: bool)
        ensures
            r == (match freshness_lifetime {
                Some(l) => self.creation_time + l > now,
                None => match self.expires {
                    Some(e) => e > now,
                    None => false,
                },
            }),
    {
        match freshness_lifetime {
            Some(l) => {
                if self.creation_time > u64::MAX - l {
                    true
                } else {
                    self.creation_time + l > now
                }
            },
            None => match self.expires {
                Some(e) => e > now,
                None => false,
            },
        }
    }
}

/// One character's place in the record's JSON: quote and backslash are
/// escaped, control characters become a `\u00` escape, everything else
/// stands as itself.
pub open spec fn spec_escape_char(c: char) -> Seq<char> {
    if c == '"' {
        seq!['\\', '"']
    } else if c == '\\' {
        seq!['\\', '\\']
    } else if (c as u32) < 32 {
        seq![
            '\\',
            'u',
            '0',
            '0',
            spec_hex_digit(((c as u32) as int) / 16),
            spec_hex_digit(((c as u32) as int) % 16),
        ]
    } else {
        seq![c]
    }
}

/// One hex digit, lowercase.
pub open spec fn spec_hex_digit(d: int) -> char {
    if d < 10 {
        ((48 + d) as u8) as char
    } else {
        ((87 + d) as u8) as char
    }
}

/// A whole string escaped, character by character.
pub open spec fn spec_escape_seq(s: Seq<char>) -> Seq<char>
    decreases s.len(),
{
    if s.len() == 0 {
        Seq::empty()
    } else {
        spec_escape_char(s.first()) + spec_escape_seq(s.drop_first())
    }
}

/// A JSON string: the escaped characters between quotes.
pub open spec fn spec_json_string(s: Seq<char>) -> Seq<char> {
    seq!['"'] + spec_escape_seq(s) + seq!['"']
}

/// An optional string in JSON: `null` or the quoted string.
pub open spec fn spec_opt_string_json(v: Option<Seq<char>>) -> Seq<char> {
    match v {
        None => "null"@,
        Some(s) => spec_json_string(s),
    }
}

/// An optional number in JSON: `null` or the decimal digits.
pub open spec fn spec_opt_u64_json(v: Option<u64>) -> Seq<char> {
    match v {
        None => "null"@,
        Some(n) => spec_digits(n as int),
    }
}

/// The JSON form of the file metadata.
pub open spec fn spec_file_metadata_json(m: &FileMetadata) -> Seq<char> {
    "{\"location\":"@ + spec_json_string(m.location@) + ",\"last_modified\":"@ + spec_digits(
        m.last_modified as int,
    ) + ",\"size\":"@ + spec_digits(m.size as int) + ",\"e_tag\":"@ + spec_opt_string_json(
        match m.e_tag {
            Some(ref t) => Some(t@),
            None => None,
        },
    ) + "}"@
}

/// The JSON form of the whole record, as it is written to disk.
pub open spec fn spec_meta_json(m: &Meta) -> Seq<char> {
    "{\"meta_data\":"@ + spec_file_metadata_json(&m.meta_data) + ",\"resource_path\":"@
        + spec_json_string(m.resource_path@) + ",\"meta_path\":"@ + spec_json_string(m.meta_path@)
        + ",\"expires\":"@ + spec_opt_u64_json(m.expires) + ",\"creation_time\":"@ + spec_digits(
        m.creation_time as int,
    ) + "}"@
}

/// Escaping distributes over concatenation.
proof fn lemma_escape_append(s: Seq<char>, t: Seq<char>)
    ensures
        spec_escape_seq(s + t) == spec_escape_seq(s) + spec_escape_seq(t),
    decreases s.len(),
{
    if s.len() == 0 {
        assert(s + t =~= t);
        assert(spec_escape_seq(s) + spec_escape_seq(t) =~= spec_escape_seq(t));
    } else {
        assert((s + t).first() == s.first());
        assert((s + t).drop_first() =~= s.drop_first() + t);
        lemma_escape_append(s.drop_first(), t);
        assert(spec_escape_char(s.first()) + (spec_escape_seq(s.drop_first()) + spec_escape_seq(t))
            =~= (spec_escape_char(s.first()) + spec_escape_seq(s.drop_first())) + spec_escape_seq(
            t,
        ));
    }
}

/// Appends the JSON string form of `s` to `out`.
fn push_json_string(out: &mut String, s: &str)
    ensures
        final(out)@ == old(out)@ + spec_json_string(s@),
{
    string_push(out, '"');
    let n = s.unicode_len();
    let mut i: usize = 0;
    while i < n
        invariant
            i <= n,
            n == s@.len(),
            out@ == old(out)@ + seq!['"'] + spec_escape_seq(s@.take(i as int)),
        decreases n - i,
    {
        let c = s.get_char(i);
        if c == '"' {
            string_push(out, '\\');
            string_push(out, '"');
        } else if c == '\\' {
            string_push(out, '\\');
            string_push(out, '\\');
        } else if (c as u32) < 32 {
            string_push(out, '\\');
            string_push(out, 'u');
            string_push(out, '0');
            string_push(out, '0');
            let hi = (c as u8) / 16;
            let lo = (c as u8) % 16;
            string_push(
                out,
                if hi < 10 {
                    (48 + hi) as char
                } else {
                    (87 + hi) as char
                },
            );
            string_push(
                out,
                if lo < 10 {
                    (48 + lo) as char
                } else {
                    (87 + lo) as char
                },
            );
        } else {
            string_push(out, c);
        }
        proof {
            assert(s@.take(i + 1) =~= s@.take(i as int) + seq![s@[i as int]]);
            lemma_escape_append(s@.take(i as int), seq![s@[i as int]]);
            assert(seq![s@[i as int]].first() == s@[i as int]);
            assert(seq![s@[i as int]].drop_first() =~= Seq::<char>::empty());
            assert(spec_escape_seq(seq![s@[i as int]].drop_first()) =~= Seq::<char>::empty());
            assert(spec_escape_seq(seq![s@[i as int]]) =~= spec_escape_char(s@[i as int])
                + Seq::<char>::empty());
            assert(spec_escape_seq(seq![s@[i as int]]) =~= spec_escape_char(s@[i as int]));
            assert(out@ =~= old(out)@ + seq!['"'] + spec_escape_seq(s@.take(i + 1)));
        }
        i = i + 1;
    }
    string_push(out, '"');
    proof {
        assert(s@.take(n as int) =~= s@);
        assert(out@ =~= old(out)@ + spec_json_string(s@));
    }
}

/// Whether `c` is a decimal digit.
pub open spec fn spec_is_digit(c: char) -> bool {
    '0' <= c && c <= '9'
}

/// Whether `c` is a lowercase hex digit, as the escape writes them.
pub open spec fn spec_is_lower_hex(c: char) -> bool {
    spec_is_digit(c) || ('a' <= c && c <= 'f')
}

/// The numeric value of a lowercase hex digit.
pub open spec fn spec_hex_val(c: char) -> int
    recommends
        spec_is_lower_hex(c),
{
    if spec_is_digit(c) {
        c as int - 48
    } else {
        c as int - 87
    }
}

/// A decoded character prepended to a parse result.
pub open spec fn spec_cons_parsed(c: char, rest: Option<(Seq<char>, int)>) -> Option<
    (Seq<char>, int),
> {
    match rest {
        Some((t, q)) => Some((seq![c] + t, q)),
        None => None,
    }
}

/// Reading the body of a canonical JSON string from `i`: the decoded
/// characters and the position just past the closing quote, or nothing
/// when the bytes are not a canonical string body.
pub open spec fn spec_parse_string_body(s: Seq<char>, i: int) -> Option<(Seq<char>, int)>
    decreases s.len() - i when 0 <= i <= s.len()
{
    if i >= s.len() {
        None
    } else if s[i] == '"' {
        Some((Seq::empty(), i + 1))
    } else if s[i] == '\\' {
        if i + 1 >= s.len() {
            None
        } else if s[i + 1] == '"' {
            spec_cons_parsed('"', spec_parse_string_body(s, i + 2))
        } else if s[i + 1] == '\\' {
            spec_cons_parsed('\\', spec_parse_string_body(s, i + 2))
        } else if s[i + 1] == 'u' {
            if i + 5 >= s.len() {
                None
            } else if s[i + 2] == '0' && s[i + 3] == '0' && (s[i + 4] == '0' || s[i + 4] == '1')
                && spec_is_lower_hex(s[i + 5]) {
                spec_cons_parsed(
                    ((spec_hex_val(s[i + 4]) * 16 + spec_hex_val(s[i + 5])) as u8) as char,
                    spec_parse_string_body(s, i + 6),
                )
            } else {
                None
            }
        } else {
            None
        }
    } else if (s[i] as u32) < 32 {
        None
    } else {
        spec_cons_parsed(s[i], spec_parse_string_body(s, i + 1))
    }
}

/// A canonical JSON string at `pos`: quote, body, quote.
pub open spec fn spec_parse_jstring(s: Seq<char>, pos: int) -> Option<(Seq<char>, int)> {
    if 0 <= pos < s.len() && s[pos] == '"' {
        spec_parse_string_body(s, pos + 1)
    } else {
        None
    }
}

/// The first position at or after `i` that holds no decimal digit.
pub open spec fn spec_digit_run_end(s: Seq<char>, i: int) -> int
    decreases s.len() - i when 0 <= i <= s.len()
{
    if i >= s.len() {
        i
    } else if spec_is_digit(s[i]) {
        spec_digit_run_end(s, i + 1)
    } else {
        i
    }
}

/// The value of a digit string, most significant digit first.
pub open spec fn spec_digits_value(d: Seq<char>) -> int
    decreases d.len(),
{
    if d.len() == 0 {
        0
    } else {
        spec_digits_value(d.drop_last()) * 10 + (d.last() as int - 48)
    }
}

/// A canonical decimal number at `pos`: a nonempty digit run without a
/// leading zero, whose value is representable.
pub open spec fn spec_parse_number(s: Seq<char>, pos: int) -> Option<(int, int)>
    recommends
        0 <= pos <= s.len(),
{
    let e = spec_digit_run_end(s, pos);
    if e == pos {
        None
    } else if s[pos] == '0' && e > pos + 1 {
        None
    } else if spec_digits_value(s.subrange(pos, e)) > u64::MAX {
        None
    } else {
        Some((spec_digits_value(s.subrange(pos, e)), e))
    }
}

/// Whether the literal `null` stands at `pos`.
pub open spec fn spec_null_at(s: Seq<char>, pos: int) -> bool {
    0 <= pos && pos + 4 <= s.len() && s.subrange(pos, pos + 4) == "null"@
}

/// `null` or a canonical JSON string at `pos`.
pub open spec fn spec_parse_opt_jstring(s: Seq<char>, pos: int) -> Option<
    (Option<Seq<char>>, int),
> {
    if spec_null_at(s, pos) {
        Some((None, pos + 4))
    } else {
        match spec_parse_jstring(s, pos) {
            Some((t, q)) => Some((Some(t), q)),
            None => None,
        }
    }
}

/// `null` or a canonical decimal number at `pos`.
pub open spec fn spec_parse_opt_number(s: Seq<char>, pos: int) -> Option<(Option<int>, int)> {
    if spec_null_at(s, pos) {
        Some((None, pos + 4))
    } else {
        match spec_parse_number(s, pos) {
            Some((v, q)) => Some((Some(v), q)),
            None => None,
        }
    }
}

/// Whether the literal stands at `pos`.
pub open spec fn spec_lit_at(s: Seq<char>, pos: int, lit: Seq<char>) -> bool {
    0 <= pos && pos + lit.len() <= s.len() && s.subrange(pos, pos + lit.len()) == lit
}

/// The parts of a record as the parser reads them.
pub struct SpecMetaParts {
    pub location: Seq<char>,
    pub last_modified: int,
    pub size: int,
    pub e_tag: Option<Seq<char>>,
    pub resource_path: Seq<char>,
    pub meta_path: Seq<char>,
    pub expires: Option<int>,
    pub creation_time: int,
}

/// The parts a record holds.
pub open spec fn spec_meta_parts(m: &Meta) -> SpecMetaParts {
    SpecMetaParts {
        location: m.meta_data.location@,
        last_modified: m.meta_data.last_modified as int,
        size: m.meta_data.size as int,
        e_tag: match m.meta_data.e_tag {
            Some(ref t) => Some(t@),
            None => None,
        },
        resource_path: m.resource_path@,
        meta_path: m.meta_path@,
        expires: match m.expires {
            Some(e) => Some(e as int),
            None => None,
        },
        creation_time: m.creation_time as int,
    }
}

/// The tail of a record from the location string onward.
#[verifier::opaque]
pub open spec fn spec_parse_location(s: Seq<char>, p: int) -> Option<SpecMetaParts> {
    match spec_parse_jstring(s, p) {
        None => None,
        Some((location, q)) => if spec_lit_at(s, q, ",\"last_modified\":"@) {
            spec_parse_last_modified(s, q + ",\"last_modified\":"@.len(), location)
        } else {
            None
        },
    }
}

/// The tail of a record from the last-modified number onward.
#[verifier::opaque]
pub open spec fn spec_parse_last_modified(s: Seq<char>, p: int, location: Seq<char>) -> Option<
    SpecMetaParts,
> {
    match spec_parse_number(s, p) {
        None => None,
        Some((last_modified, q)) => if spec_lit_at(s, q, ",\"size\":"@) {
            spec_parse_size(s, q + ",\"size\":"@.len(), location, last_modified)
        } else {
            None
        },
    }
}

/// The tail of a record from the size number onward.
#[verifier::opaque]
pub open spec fn spec_parse_size(
    s: Seq<char>,
    p: int,
    location: Seq<char>,
    last_modified: int,
) -> Option<SpecMetaParts> {
    match spec_parse_number(s, p) {
        None => None,
        Some((size, q)) => if spec_lit_at(s, q, ",\"e_tag\":"@) {
            spec_parse_e_tag(s, q + ",\"e_tag\":"@.len(), location, last_modified, size)
        } else {
            None
        },
    }
}

/// The tail of a record from the entity tag onward.
#[verifier::opaque]
pub open spec fn spec_parse_e_tag(
    s: Seq<char>,
    p: int,
    location: Seq<char>,
    last_modified: int,
    size: int,
) -> Option<SpecMetaParts> {
    match spec_parse_opt_jstring(s, p) {
        None => None,
        Some((e_tag, q)) => if spec_lit_at(s, q, "}"@) && spec_lit_at(
            s,
            q + "}"@.len(),
            ",\"resource_path\":"@,
        ) {
            spec_parse_resource_path(
                s,
                q + "}"@.len() + ",\"resource_path\":"@.len(),
                location,
                last_modified,
                size,
                e_tag,
            )
        } else {
            None
        },
    }
}

/// The tail of a record from the resource path onward.
#[verifier::opaque]
pub open spec fn spec_parse_resource_path(
    s: Seq<char>,
    p: int,
    location: Seq<char>,
    last_modified: int,
    size: int,
    e_tag: Option<Seq<char>>,
) -> Option<SpecMetaParts> {
    match spec_parse_jstring(s, p) {
        None => None,
        Some((resource_path, q)) => if spec_lit_at(s, q, ",\"meta_path\":"@) {
            spec_parse_meta_path(
                s,
                q + ",\"meta_path\":"@.len(),
                location,
                last_modified,
                size,
                e_tag,
                resource_path,
            )
        } else {
            None
        },
    }
}

/// The tail of a record from the record path onward.
#[verifier::opaque]
pub open spec fn spec_parse_meta_path(
    s: Seq<char>,
    p: int,
    location: Seq<char>,
    last_modified: int,
    size: int,
    e_tag: Option<Seq<char>>,
    resource_path: Seq<char>,
) -> Option<SpecMetaParts> {
    match spec_parse_jstring(s, p) {
        None => None,
        Some((meta_path, q)) => if spec_lit_at(s, q, ",\"expires\":"@) {
            spec_parse_expires(
                s,
                q + ",\"expires\":"@.len(),
                location,
                last_modified,
                size,
                e_tag,
                resource_path,
                meta_path,
            )
        } else {
            None
        },
    }
}

/// The tail of a record from the expiry onward.
#[verifier::opaque]
pub open spec fn spec_parse_expires(
    s: Seq<char>,
    p: int,
    location: Seq<char>,
    last_modified: int,
    size: int,
    e_tag: Option<Seq<char>>,
    resource_path: Seq<char>,
    meta_path: Seq<char>,
) -> Option<SpecMetaParts> {
    match spec_parse_opt_number(s, p) {
        None => None,
        Some((expires, q)) => if spec_lit_at(s, q, ",\"creation_time\":"@) {
            spec_parse_creation(
                s,
                q + ",\"creation_time\":"@.len(),
                location,
                last_modified,
                size,
                e_tag,
                resource_path,
                meta_path,
                expires,
            )
        } else {
            None
        },
    }
}

/// The end of a record: the creation time and the closing brace, which must
/// end the input.
#[verifier::opaque]
pub open spec fn spec_parse_creation(
    s: Seq<char>,
    p: int,
    location: Seq<char>,
    last_modified: int,
    size: int,
    e_tag: Option<Seq<char>>,
    resource_path: Seq<char>,
    meta_path: Seq<char>,
    expires: Option<int>,
) -> Option<SpecMetaParts> {
    match spec_parse_number(s, p) {
        None => None,
        Some((creation_time, q)) => if spec_lit_at(s, q, "}"@) && q + "}"@.len() == s.len() {
            Some(
                SpecMetaParts {
                    location,
                    last_modified,
                    size,
                    e_tag,
                    resource_path,
                    meta_path,
                    expires,
                    creation_time,
                },
            )
        } else {
            None
        },
    }
}

/// What reading a whole record from `s` yields: the parts, when `s` is
/// exactly one canonical record, and nothing otherwise.
#[verifier::opaque]
pub open spec fn spec_meta_parse(s: Seq<char>) -> Option<SpecMetaParts> {
    if spec_lit_at(s, 0, "{\"meta_data\":"@) && spec_lit_at(
        s,
        "{\"meta_data\":"@.len() as int,
        "{\"location\":"@,
    ) {
        spec_parse_location(s, "{\"meta_data\":"@.len() + "{\"location\":"@.len() as int)
    } else {
        None
    }
}

/// Reading a canonical string body gives back exactly the characters whose
/// escaped form stands there.
proof fn lemma_parse_string_complete(t: Seq<char>, s: Seq<char>, i: int)
    requires
        0 <= i,
        i + spec_escape_seq(t).len() + 1 <= s.len(),
        s.subrange(i, i + spec_escape_seq(t).len() + 1) == spec_escape_seq(t) + seq!['"'],
    ensures
        spec_parse_string_body(s, i) == Some((t, i + spec_escape_seq(t).len() + 1)),
    decreases t.len(),
{
    let whole = s.subrange(i, i + spec_escape_seq(t).len() + 1);
    if t.len() == 0 {
        assert(spec_escape_seq(t) =~= Seq::<char>::empty());
        assert(s[i] == whole[0]);
        assert(whole[0] == '"');
    } else {
        let c = t.first();
        let rest = t.drop_first();
        let ec = spec_escape_char(c);
        assert(spec_escape_seq(t) == ec + spec_escape_seq(rest));
        let k = ec.len() as int;
        assert(forall|j: int| 0 <= j < whole.len() ==> whole[j] == s[i + j]);
        assert forall|j: int| 0 <= j < k implies whole[j] == ec[j] by {
            assert(whole[j] == (ec + spec_escape_seq(rest))[j]);
        }
        assert forall|j: int| 0 <= j < spec_escape_seq(rest).len() + 1 implies s.subrange(
            i + k,
            i + k + spec_escape_seq(rest).len() + 1,
        )[j] == (spec_escape_seq(rest) + seq!['"'])[j] by {
            assert(s.subrange(i + k, i + k + spec_escape_seq(rest).len() + 1)[j] == whole[k + j]);
            if j < spec_escape_seq(rest).len() {
                assert(whole[k + j] == (ec + spec_escape_seq(rest))[k + j]);
            }
        }
        assert(s.subrange(i + k, i + k + spec_escape_seq(rest).len() + 1) =~= spec_escape_seq(rest)
            + seq!['"']);
        lemma_parse_string_complete(rest, s, i + k);
        if c == '"' {
            assert(s[i] == '\\' && s[i + 1] == '"');
            assert(seq!['"'] + rest =~= t);
        } else if c == '\\' {
            assert(s[i] == '\\' && s[i + 1] == '\\');
            assert(seq!['\\'] + rest =~= t);
        } else if (c as u32) < 32 {
            let cv = (c as u32) as int;
            let hi = cv / 16;
            let lo = cv % 16;
            vstd::arithmetic::div_mod::lemma_fundamental_div_mod(cv, 16);
            vstd::arithmetic::div_mod::lemma_mod_bound(cv, 16);
            assert(0 <= hi <= 1) by (nonlinear_arith)
                requires
                    0 <= cv < 32,
                    hi == cv / 16,
            ;
            assert(0 <= lo < 16);
            assert(s[i] == '\\' && s[i + 1] == 'u' && s[i + 2] == '0' && s[i + 3] == '0');
            assert(s[i + 4] == spec_hex_digit(hi));
            assert(s[i + 5] == spec_hex_digit(lo));
            assert(s[i + 4] == '0' || s[i + 4] == '1');
            assert(spec_is_lower_hex(s[i + 5]));
            assert(spec_hex_val(spec_hex_digit(hi)) == hi);
            assert(spec_hex_val(spec_hex_digit(lo)) == lo);
            assert((hi * 16 + lo) as u8 == cv as u8);
            assert(((cv as u8) as char) as u32 == cv as u32);
            vstd::utf8::char_u32_cast(c, c as u32);
            vstd::utf8::char_u32_cast((cv as u8) as char, ((cv as u8) as char) as u32);
            assert((cv as u8) as char == c);
            assert(seq![c] + rest =~= t);
        } else {
            assert(ec =~= seq![c]);
            assert(whole[0] == ec[0]);
            assert(s[i] == c);
            assert(s[i] != '"' && s[i] != '\\' && (s[i] as u32) >= 32);
            assert(seq![c] + rest =~= t);
        }
    }
}

/// The shape of written digits: nonempty, all digits, no leading zero
/// except for zero itself.
proof fn lemma_digits_shape(v: int)
    requires
        v >= 0,
    ensures
        spec_digits(v).len() >= 1,
        forall|k: int| 0 <= k < spec_digits(v).len() ==> spec_is_digit(#[trigger] spec_digits(v)[k]),
        spec_digits(v)[0] == '0' ==> v == 0 && spec_digits(v).len() == 1,
    decreases v,
{
    if v >= 10 {
        lemma_digits_shape(v / 10);
        let d = spec_digits(v);
        assert(d == spec_digits(v / 10).push(spec_digit_char(v % 10)));
        assert(d[0] == spec_digits(v / 10)[0]);
        assert(forall|k: int|
            0 <= k < d.len() - 1 ==> #[trigger] d[k] == spec_digits(v / 10)[k]);
        assert(spec_is_digit(d[d.len() - 1]));
        if d[0] == '0' {
            assert(v / 10 == 0);
        }
    }
}

/// Reading back the written digits returns the value.
proof fn lemma_digits_value_digits(v: int)
    requires
        v >= 0,
    ensures
        spec_digits_value(spec_digits(v)) == v,
    decreases v,
{
    if v < 10 {
        let d = spec_digits(v);
        assert(d =~= seq![spec_digit_char(v)]);
        assert(d.drop_last() =~= Seq::<char>::empty());
        assert(d.last() == spec_digit_char(v));
        assert((spec_digit_char(v) as int) == 48 + v);
        assert(spec_digits_value(d) == spec_digits_value(d.drop_last()) * 10 + (d.last() as int
            - 48));
    } else {
        lemma_digits_value_digits(v / 10);
        let d = spec_digits(v);
        assert(d.drop_last() =~= spec_digits(v / 10));
        assert(d.last() == spec_digit_char(v % 10));
        vstd::arithmetic::div_mod::lemma_fundamental_div_mod(v, 10);
    }
}

/// A digit string's value is never negative.
proof fn lemma_digits_value_nonneg(d: Seq<char>)
    requires
        forall|k: int| 0 <= k < d.len() ==> spec_is_digit(#[trigger] d[k]),
    ensures
        spec_digits_value(d) >= 0,
    decreases d.len(),
{
    if d.len() > 0 {
        assert(forall|k: int|
            0 <= k < d.len() - 1 ==> #[trigger] d.drop_last()[k] == d[k]);
        lemma_digits_value_nonneg(d.drop_last());
    }
}

/// A digit string not starting with zero has a positive value.
proof fn lemma_digits_value_positive(d: Seq<char>)
    requires
        d.len() >= 1,
        forall|k: int| 0 <= k < d.len() ==> spec_is_digit(#[trigger] d[k]),
        d[0] != '0',
    ensures
        spec_digits_value(d) >= 1,
    decreases d.len(),
{
    if d.len() == 1 {
        assert(d.last() == d[0]);
        assert(d.drop_last() =~= Seq::<char>::empty());
        assert(spec_digits_value(d) == (d[0] as int) - 48);
        assert((d[0] as int) >= 49);
    } else {
        assert(forall|k: int|
            0 <= k < d.len() - 1 ==> #[trigger] d.drop_last()[k] == d[k]);
        lemma_digits_value_positive(d.drop_last());
        lemma_digits_value_nonneg(d.drop_last());
        assert(spec_digits_value(d) == spec_digits_value(d.drop_last()) * 10 + (d.last() as int
            - 48));
        assert(spec_digits_value(d) >= 10) by (nonlinear_arith)
            requires
                spec_digits_value(d) == spec_digits_value(d.drop_last()) * 10 + (d.last() as int
                    - 48),
                spec_digits_value(d.drop_last()) >= 1,
                d.last() as int - 48 >= 0,
        ;
    }
}

/// Writing a canonical digit string's value gives back the string.
proof fn lemma_digits_of_value(d: Seq<char>)
    requires
        d.len() >= 1,
        forall|k: int| 0 <= k < d.len() ==> spec_is_digit(#[trigger] d[k]),
        d[0] == '0' ==> d.len() == 1,
    ensures
        spec_digits(spec_digits_value(d)) == d,
    decreases d.len(),
{
    lemma_digits_value_nonneg(d);
    if d.len() == 1 {
        let v = spec_digits_value(d);
        assert(d.drop_last() =~= Seq::<char>::empty());
        assert(d.last() == d[0]);
        assert(v == spec_digits_value(d.drop_last()) * 10 + (d.last() as int - 48));
        assert(v == d[0] as int - 48);
        assert(0 <= v < 10);
        assert(spec_digits(v) =~= seq![spec_digit_char(v)]);
        assert(spec_digit_char(v) == d[0]);
        assert(spec_digits(v) =~= d);
    } else {
        let head = d.drop_last();
        assert(forall|k: int| 0 <= k < head.len() ==> #[trigger] head[k] == d[k]);
        lemma_digits_of_value(head);
        lemma_digits_value_positive(head);
        let v = spec_digits_value(d);
        let hv = spec_digits_value(head);
        let last = d.last() as int - 48;
        assert(v == hv * 10 + last);
        assert(0 <= last < 10);
        assert(v >= 10) by (nonlinear_arith)
            requires
                hv >= 1,
                v == hv * 10 + last,
                last >= 0,
        ;
        vstd::arithmetic::div_mod::lemma_fundamental_div_mod_converse(v, 10, hv, last);
        assert(spec_digits(v) == spec_digits(hv).push(spec_digit_char(last)));
        assert(spec_digit_char(last) == d.last());
        assert(spec_digits(hv).push(d.last()) =~= d);
    }
}

/// A prefix of a digit string is worth no more than the whole.
proof fn lemma_digits_value_prefix_le(d: Seq<char>, k: int)
    requires
        0 <= k <= d.len(),
        forall|j: int| 0 <= j < d.len() ==> spec_is_digit(#[trigger] d[j]),
    ensures
        spec_digits_value(d.take(k)) <= spec_digits_value(d),
    decreases d.len() - k,
{
    if k == d.len() {
        assert(d.take(k) =~= d);
    } else {
        assert(forall|j: int| 0 <= j < k ==> #[trigger] d.take(k)[j] == d[j]);
        assert(d.take(k + 1).drop_last() =~= d.take(k));
        assert(d.take(k + 1).last() == d[k]);
        lemma_digits_value_nonneg(d.take(k));
        assert(spec_digits_value(d.take(k + 1)) == spec_digits_value(d.take(k)) * 10 + (d[k] as int
            - 48));
        assert(spec_digits_value(d.take(k)) <= spec_digits_value(d.take(k + 1)))
            by (nonlinear_arith)
            requires
                spec_digits_value(d.take(k + 1)) == spec_digits_value(d.take(k)) * 10 + (
                d[k] as int - 48),
                spec_digits_value(d.take(k)) >= 0,
                d[k] as int - 48 >= 0,
        ;
        lemma_digits_value_prefix_le(d, k + 1);
    }
}

/// Where the digit run from `i` ends.
proof fn lemma_digit_run_end(s: Seq<char>, i: int)
    requires
        0 <= i <= s.len(),
    ensures
        i <= spec_digit_run_end(s, i) <= s.len(),
        forall|k: int| i <= k < spec_digit_run_end(s, i) ==> spec_is_digit(#[trigger] s[k]),
        spec_digit_run_end(s, i) < s.len() ==> !spec_is_digit(s[spec_digit_run_end(s, i)]),
    decreases s.len() - i,
{
    if i < s.len() && spec_is_digit(s[i]) {
        lemma_digit_run_end(s, i + 1);
    }
}

/// Reading a canonical number gives back exactly the value whose digits
/// stand there, provided the run ends where the digits do.
proof fn lemma_parse_number_complete(v: u64, s: Seq<char>, pos: int)
    requires
        0 <= pos,
        pos + spec_digits(v as int).len() <= s.len(),
        s.subrange(pos, pos + spec_digits(v as int).len()) == spec_digits(v as int),
        pos + spec_digits(v as int).len() == s.len() || !spec_is_digit(
            s[pos + spec_digits(v as int).len()],
        ),
    ensures
        spec_parse_number(s, pos) == Some((v as int, pos + spec_digits(v as int).len())),
{
    let d = spec_digits(v as int);
    lemma_digits_shape(v as int);
    assert forall|k: int| pos <= k < pos + d.len() implies spec_is_digit(#[trigger] s[k]) by {
        assert(s[k] == s.subrange(pos, pos + d.len())[k - pos]);
        assert(spec_is_digit(d[k - pos]));
    }
    lemma_digit_run_end(s, pos);
    let e = spec_digit_run_end(s, pos);
    assert(e == pos + d.len()) by {
        if e < pos + d.len() {
            assert(spec_is_digit(s[e]));
        }
        if e > pos + d.len() {
            assert(spec_is_digit(s[pos + d.len()]));
        }
    }
    lemma_digits_value_digits(v as int);
    assert(s.subrange(pos, e) == d);
    if s[pos] == '0' {
        assert(d[0] == '0');
    }
}

/// A prefix of decoded characters joined onto a parse result.
pub open spec fn spec_append_parsed(prefix: Seq<char>, rest: Option<(Seq<char>, int)>) -> Option<
    (Seq<char>, int),
> {
    match rest {
        Some((t, q)) => Some((prefix + t, q)),
        None => None,
    }
}

/// Moves past `lit` at `pos`, when it stands there.
fn expect_lit(src: &str, pos: usize, lit: &str) -> (r: Option<usize>)
    requires
        pos <= src@.len(),
    ensures
        r matches Some(p) ==> pos + lit@.len() == p && p <= src@.len() && src@.subrange(
            pos as int,
            p as int,
        ) == lit@ && spec_lit_at(src@, pos as int, lit@),
        r is None ==> !spec_lit_at(src@, pos as int, lit@),
{
    let n = src.unicode_len();
    let m = lit.unicode_len();
    if m > n - pos {
        return None;
    }
    let mut i: usize = 0;
    while i < m
        invariant
            i <= m,
            m == lit@.len(),
            n == src@.len(),
            pos + m <= n,
            forall|k: int| 0 <= k < i ==> src@[pos + k] == lit@[k],
        decreases m - i,
    {
        if src.get_char(pos + i) != lit.get_char(i) {
            proof {
                if spec_lit_at(src@, pos as int, lit@) {
                    assert(src@.subrange(pos as int, pos + lit@.len())[i as int] == lit@[i as int]);
                }
            }
            return None;
        }
        i = i + 1;
    }
    proof {
        assert(src@.subrange(pos as int, (pos + m) as int) =~= lit@);
    }
    Some(pos + m)
}

/// Reads a canonical JSON string at `pos`: it accepts exactly what
/// `spec_parse_jstring` does, and whatever it accepts is exactly the
/// canonical serialization of the string it returns.
fn parse_json_string(src: &str, pos: usize) -> (r: Option<(String, usize)>)
    requires
        pos <= src@.len(),
    ensures
        r matches Some((s, p)) ==> ({
            &&& pos < p <= src@.len()
            &&& src@.subrange(pos as int, p as int) == spec_json_string(s@)
            &&& spec_parse_jstring(src@, pos as int) == Some((s@, p as int))
        }),
        r is None ==> spec_parse_jstring(src@, pos as int) is None,
{
    let n = src.unicode_len();
    if pos >= n || src.get_char(pos) != '"' {
        return None;
    }
    let mut out = String::new();
    let mut i: usize = pos + 1;
    proof {
        match spec_parse_string_body(src@, pos as int + 1) {
            Some((t, q)) => {
                assert(Seq::<char>::empty() + t =~= t);
            },
            None => {},
        }
    }
    while i < n
        invariant
            pos + 1 <= i <= n,
            n == src@.len(),
            src@[pos as int] == '"',
            src@.subrange(pos as int + 1, i as int) == spec_escape_seq(out@),
            spec_parse_string_body(src@, pos as int + 1) == spec_append_parsed(
                out@,
                spec_parse_string_body(src@, i as int),
            ),
        decreases n - i,
    {
        let ghost prev = out@;
        let ghost start = i as int;
        let c = src.get_char(i);
        if c == '"' {
            proof {
                assert(src@.subrange(pos as int, i as int + 1) =~= seq!['"'] + spec_escape_seq(
                    out@,
                ) + seq!['"']);
                assert(spec_parse_string_body(src@, i as int) == Some((
                    Seq::<char>::empty(),
                    i as int + 1,
                )));
                assert(out@ + Seq::<char>::empty() =~= out@);
            }
            return Some((out, i + 1));
        }
        if c == '\\' {
            if i + 1 >= n {
                proof {
                    assert(spec_parse_string_body(src@, i as int) is None);
                }
                return None;
            }
            let d = src.get_char(i + 1);
            if d == '"' {
                string_push(&mut out, '"');
                i = i + 2;
            } else if d == '\\' {
                string_push(&mut out, '\\');
                i = i + 2;
            } else if d == 'u' {
                if n - i < 6 {
                    proof {
                        assert(spec_parse_string_body(src@, i as int) is None);
                    }
                    return None;
                }
                if src.get_char(i + 2) != '0' || src.get_char(i + 3) != '0' {
                    proof {
                        assert(spec_parse_string_body(src@, i as int) is None);
                    }
                    return None;
                }
                let h1 = src.get_char(i + 4);
                let h2 = src.get_char(i + 5);
                if h1 != '0' && h1 != '1' {
                    proof {
                        assert(spec_parse_string_body(src@, i as int) is None);
                    }
                    return None;
                }
                let hi: u8 = if h1 == '1' {
                    1
                } else {
                    0
                };
                let lo: u8 = if '0' <= h2 && h2 <= '9' {
                    (h2 as u8) - 48
                } else if 'a' <= h2 && h2 <= 'f' {
                    (h2 as u8) - 87
                } else {
                    proof {
                        assert(!spec_is_lower_hex(src@[i as int + 5]));
                        assert(spec_parse_string_body(src@, i as int) is None);
                    }
                    return None;
                };
                let v: u8 = hi * 16 + lo;
                string_push(&mut out, v as char);
                proof {
                    vstd::arithmetic::div_mod::lemma_fundamental_div_mod_converse(
                        v as int,
                        16,
                        hi as int,
                        lo as int,
                    );
                    assert(spec_hex_digit(hi as int) == h1);
                    assert(spec_hex_digit(lo as int) == h2);
                    assert(((v as char) as int) < 32);
                    assert(((v as char) as int) / 16 == hi && ((v as char) as int) % 16 == lo);
                }
                i = i + 6;
            } else {
                proof {
                    assert(spec_parse_string_body(src@, i as int) is None);
                }
                return None;
            }
        } else {
            if (c as u32) < 32 {
                proof {
                    assert(spec_parse_string_body(src@, i as int) is None);
                }
                return None;
            }
            string_push(&mut out, c);
            i = i + 1;
        }
        proof {
            let added = out@.last();
            assert(out@ =~= prev.push(added));
            assert(prev.push(added) =~= prev + seq![added]);
            lemma_escape_append(prev, seq![added]);
            assert(seq![added].first() == added);
            assert(seq![added].drop_first() =~= Seq::<char>::empty());
            assert(spec_escape_seq(seq![added].drop_first()) =~= Seq::<char>::empty());
            assert(spec_escape_seq(seq![added]) =~= spec_escape_char(added)
                + Seq::<char>::empty());
            assert(src@.subrange(start, i as int) =~= spec_escape_char(added));
            assert(src@.subrange(pos as int + 1, i as int) =~= src@.subrange(pos as int + 1, start)
                + src@.subrange(start, i as int));
            assert(spec_parse_string_body(src@, start) == spec_cons_parsed(
                added,
                spec_parse_string_body(src@, i as int),
            ));
            match spec_parse_string_body(src@, i as int) {
                Some((t2, q2)) => {
                    assert(prev + (seq![added] + t2) =~= prev.push(added) + t2);
                },
                None => {},
            }
        }
    }
    proof {
        assert(spec_parse_string_body(src@, i as int) is None);
    }
    None
}

/// Reads a canonical decimal number at `pos`: it accepts exactly what
/// `spec_parse_number` does — no sign, no leading zero, within range.
fn parse_u64(src: &str, pos: usize) -> (r: Option<(u64, usize)>)
    requires
        pos <= src@.len(),
    ensures
        r matches Some((v, p)) ==> ({
            &&& pos < p <= src@.len()
            &&& src@.subrange(pos as int, p as int) == spec_digits(v as int)
            &&& spec_parse_number(src@, pos as int) == Some((v as int, p as int))
        }),
        r is None ==> spec_parse_number(src@, pos as int) is None,
{
    let n = src.unicode_len();
    // the maximal digit run from `pos`
    let mut e = pos;
    loop
        invariant
            pos <= e <= n,
            n == src@.len(),
            forall|k: int| pos <= k < e ==> spec_is_digit(#[trigger] src@[k]),
        ensures
            pos <= e <= n,
            forall|k: int| pos <= k < e ==> spec_is_digit(#[trigger] src@[k]),
            e == n || !spec_is_digit(src@[e as int]),
        decreases n - e,
    {
        if e >= n {
            break ;
        }
        let c = src.get_char(e);
        if c < '0' || c > '9' {
            break ;
        }
        e = e + 1;
    }
    proof {
        lemma_digit_run_end(src@, pos as int);
        let re = spec_digit_run_end(src@, pos as int);
        if re < e {
            assert(spec_is_digit(src@[re]));
        }
        if re > e {
            assert(spec_is_digit(src@[e as int]));
        }
        assert(re == e);
    }
    if e == pos {
        return None;
    }
    let c0 = src.get_char(pos);
    if c0 == '0' && e > pos + 1 {
        return None;
    }
    let ghost run = src@.subrange(pos as int, e as int);
    proof {
        assert(forall|k: int| 0 <= k < run.len() ==> spec_is_digit(#[trigger] run[k]));
        lemma_digits_value_nonneg(run);
    }
    let mut v: u64 = 0;
    let mut i = pos;
    while i < e
        invariant
            pos < e <= n,
            pos <= i <= e,
            n == src@.len(),
            spec_digit_run_end(src@, pos as int) == e,
            !(src@[pos as int] == '0' && e > pos + 1),
            run == src@.subrange(pos as int, e as int),
            forall|k: int| 0 <= k < run.len() ==> spec_is_digit(#[trigger] run[k]),
            v as int == spec_digits_value(src@.subrange(pos as int, i as int)),
        decreases e - i,
    {
        let c = src.get_char(i);
        proof {
            assert(spec_is_digit(src@[i as int])) by {
                assert(src@[i as int] == run[i - pos]);
            }
        }
        let d = (c as u8 - 48) as u64;
        if v > (u64::MAX - d) / 10 {
            proof {
                // the run's value would not fit: the whole run is worth at
                // least this prefix extended by one digit, which overflows
                vstd::arithmetic::div_mod::lemma_fundamental_div_mod((u64::MAX - d) as int, 10);
                assert(v * 10 + d > u64::MAX) by (nonlinear_arith)
                    requires
                        v as int > (u64::MAX - d) as int / 10,
                        u64::MAX - d == ((u64::MAX - d) as int / 10) * 10 + (u64::MAX - d) as int
                            % 10,
                        0 <= (u64::MAX - d) as int % 10 < 10,
                        d <= u64::MAX,
                ;
                assert(src@.subrange(pos as int, i as int + 1).drop_last() =~= src@.subrange(
                    pos as int,
                    i as int,
                ));
                assert(src@.subrange(pos as int, i as int + 1).last() == src@[i as int]);
                assert(spec_digits_value(src@.subrange(pos as int, i as int + 1)) == v * 10 + d);
                assert(run.take(i + 1 - pos) =~= src@.subrange(pos as int, i as int + 1));
                lemma_digits_value_prefix_le(run, i + 1 - pos);
                assert(spec_digits_value(run) > u64::MAX);
            }
            return None;
        }
        proof {
            vstd::arithmetic::div_mod::lemma_fundamental_div_mod((u64::MAX - d) as int, 10);
            assert(v * 10 <= ((u64::MAX - d) as int / 10) * 10) by (nonlinear_arith)
                requires
                    v as int <= (u64::MAX - d) as int / 10,
            ;
        }
        let ghost old_v = v as int;
        v = v * 10 + d;
        proof {
            assert(src@.subrange(pos as int, i as int + 1).drop_last() =~= src@.subrange(
                pos as int,
                i as int,
            ));
            assert(src@.subrange(pos as int, i as int + 1).last() == src@[i as int]);
            assert(spec_digits_value(src@.subrange(pos as int, i as int + 1)) == old_v * 10 + d);
        }
        i = i + 1;
    }
    proof {
        assert(src@.subrange(pos as int, i as int) =~= run);
        if run[0] == '0' {
            assert(src@[pos as int] == '0');
            assert(run.len() == 1);
        }
        lemma_digits_of_value(run);
    }
    Some((v, e))
}

/// Reads `null` or a canonical JSON string: exactly what
/// `spec_parse_opt_jstring` accepts.
fn parse_opt_string(src: &str, pos: usize) -> (r: Option<(Option<String>, usize)>)
    requires
        pos <= src@.len(),
    ensures
        r matches Some((v, p)) ==> ({
            &&& pos < p <= src@.len()
            &&& src@.subrange(pos as int, p as int) == spec_opt_string_json(
                match v {
                    Some(ref s) => Some(s@),
                    None => None,
                },
            )
            &&& spec_parse_opt_jstring(src@, pos as int) == Some(
                (
                    match v {
                        Some(ref s) => Some(s@),
                        None => None::<Seq<char>>,
                    },
                    p as int,
                ),
            )
        }),
        r is None ==> spec_parse_opt_jstring(src@, pos as int) is None,
{
    proof {
        reveal_strlit("null");
    }
    match expect_lit(src, pos, "null") {
        Some(p) => {
            proof {
                assert(spec_null_at(src@, pos as int));
            }
            Some((None, p))
        },
        None => {
            proof {
                assert(!spec_null_at(src@, pos as int));
            }
            match parse_json_string(src, pos) {
                Some((s, p)) => Some((Some(s), p)),
                None => None,
            }
        },
    }
}

/// Reads `null` or a canonical decimal number: exactly what
/// `spec_parse_opt_number` accepts.
fn parse_opt_u64(src: &str, pos: usize) -> (r: Option<(Option<u64>, usize)>)
    requires
        pos <= src@.len(),
    ensures
        r matches Some((v, p)) ==> ({
            &&& pos < p <= src@.len()
            &&& src@.subrange(pos as int, p as int) == spec_opt_u64_json(v)
            &&& spec_parse_opt_number(src@, pos as int) == Some(
                (
                    match v {
                        Some(x) => Some(x as int),
                        None => None::<int>,
                    },
                    p as int,
                ),
            )
        }),
        r is None ==> spec_parse_opt_number(src@, pos as int) is None,
{
    proof {
        reveal_strlit("null");
    }
    match expect_lit(src, pos, "null") {
        Some(p) => {
            proof {
                assert(spec_null_at(src@, pos as int));
            }
            Some((None, p))
        },
        None => {
            proof {
                assert(!spec_null_at(src@, pos as int));
            }
            match parse_u64(src, pos) {
                Some((v, p)) => Some((Some(v), p)),
                None => None,
            }
        },
    }
}

/// The record's canonical JSON is exactly the concatenation of its pieces:
/// gluing the parsed spans back together gives the whole input.
#[verifier::spinoff_prover]
proof fn lemma_assemble_meta_json(
    s: Seq<char>,
    m: &Meta,
    p0a: int,
    p0: int,
    p1: int,
    p2: int,
    p3: int,
    p4: int,
    p5: int,
    p6: int,
    p7: int,
    p7a: int,
    p8: int,
    p9: int,
    p10: int,
    p11: int,
    p12: int,
    p13: int,
    p14: int,
    p15: int,
    p16: int,
)
    requires
        0 <= p0a <= p0 <= p1 <= p2 <= p3 <= p4 <= p5 <= p6 <= p7 <= p7a <= p8 <= p9 <= p10 <= p11
            <= p12 <= p13 <= p14 <= p15 <= p16,
        p16 == s.len(),
        s.subrange(0, p0a) == "{\"meta_data\":"@,
        s.subrange(p0a, p0) == "{\"location\":"@,
        s.subrange(p0, p1) == spec_json_string(m.meta_data.location@),
        s.subrange(p1, p2) == ",\"last_modified\":"@,
        s.subrange(p2, p3) == spec_digits(m.meta_data.last_modified as int),
        s.subrange(p3, p4) == ",\"size\":"@,
        s.subrange(p4, p5) == spec_digits(m.meta_data.size as int),
        s.subrange(p5, p6) == ",\"e_tag\":"@,
        s.subrange(p6, p7) == spec_opt_string_json(
            match m.meta_data.e_tag {
                Some(ref t) => Some(t@),
                None => None,
            },
        ),
        s.subrange(p7, p7a) == "}"@,
        s.subrange(p7a, p8) == ",\"resource_path\":"@,
        s.subrange(p8, p9) == spec_json_string(m.resource_path@),
        s.subrange(p9, p10) == ",\"meta_path\":"@,
        s.subrange(p10, p11) == spec_json_string(m.meta_path@),
        s.subrange(p11, p12) == ",\"expires\":"@,
        s.subrange(p12, p13) == spec_opt_u64_json(m.expires),
        s.subrange(p13, p14) == ",\"creation_time\":"@,
        s.subrange(p14, p15) == spec_digits(m.creation_time as int),
        s.subrange(p15, p16) == "}"@,
    ensures
        s == spec_meta_json(m),
{
    assert(s =~= s.subrange(0, p0a) + s.subrange(p0a, p0) + s.subrange(p0, p1) + s.subrange(
        p1,
        p2,
    ) + s.subrange(p2, p3) + s.subrange(p3, p4) + s.subrange(p4, p5) + s.subrange(p5, p6)
        + s.subrange(p6, p7) + s.subrange(p7, p7a) + s.subrange(p7a, p8) + s.subrange(p8, p9)
        + s.subrange(p9, p10) + s.subrange(p10, p11) + s.subrange(p11, p12) + s.subrange(p12, p13)
        + s.subrange(p13, p14) + s.subrange(p14, p15) + s.subrange(p15, p16));
    assert(s =~= spec_meta_json(m));
}

/// Reads a record back from its canonical JSON. The contract is exact in
/// both directions: a record comes back exactly when the input is some
/// record's canonical form — so a record written and read back comes back
/// whole — and whatever is accepted is the canonical serialization of the
/// result.
#[verifier::rlimit(100)]
#[verifier::spinoff_prover]
pub fn meta_from_json(src: &str) -> (r: Result<Meta, StreamError>)
    ensures
        r matches Ok(m) ==> ({
            &&& src@ == spec_meta_json(&m)
            &&& spec_meta_parse(src@) == Some(spec_meta_parts(&m))
        }),
        r matches Err(e) ==> e is CacheCorruption && spec_meta_parse(src@) is None,
{
    let n = src.unicode_len();
    let p0a = match expect_lit(src, 0, "{\"meta_data\":") {
        Some(p) => p,
        None => {
            proof {
                reveal(spec_meta_parse);
                assert(spec_meta_parse(src@) is None);
            }
            return Err(StreamError::CacheCorruption("invalid cache record".to_owned()));
        },
    };
    let p0 = match expect_lit(src, p0a, "{\"location\":") {
        Some(p) => p,
        None => {
            proof {
                reveal(spec_meta_parse);
                assert(spec_meta_parse(src@) is None);
            }
            return Err(StreamError::CacheCorruption("invalid cache record".to_owned()));
        },
    };
    proof {
        reveal(spec_meta_parse);
        assert(spec_meta_parse(src@) == spec_parse_location(src@, p0 as int));
    }
    let (location, p1) = match parse_json_string(src, p0) {
        Some(x) => x,
        None => {
            proof {
                reveal(spec_parse_location);
                assert(spec_parse_location(src@, p0 as int) is None);
            }
            return Err(StreamError::CacheCorruption("invalid cache record".to_owned()));
        },
    };
    let p2 = match expect_lit(src, p1, ",\"last_modified\":") {
        Some(p) => p,
        None => {
            proof {
                reveal(spec_parse_location);
                assert(spec_parse_location(src@, p0 as int) is None);
            }
            return Err(StreamError::CacheCorruption("invalid cache record".to_owned()));
        },
    };
    proof {
        reveal(spec_parse_location);
        assert(spec_parse_location(src@, p0 as int) == spec_parse_last_modified(
            src@,
            p2 as int,
            location@,
        ));
    }
    let (last_modified, p3) = match parse_u64(src, p2) {
        Some(x) => x,
        None => {
            proof {
                reveal(spec_parse_last_modified);
                assert(spec_parse_last_modified(src@, p2 as int, location@) is None);
            }
            return Err(StreamError::CacheCorruption("invalid cache record".to_owned()));
        },
    };
    let p4 = match expect_lit(src, p3, ",\"size\":") {
        Some(p) => p,
        None => {
            proof {
                reveal(spec_parse_last_modified);
                assert(spec_parse_last_modified(src@, p2 as int, location@) is None);
            }
            return Err(StreamError::CacheCorruption("invalid cache record".to_owned()));
        },
    };
    proof {
        reveal(spec_parse_last_modified);
        assert(spec_parse_last_modified(src@, p2 as int, location@) == spec_parse_size(
            src@,
            p4 as int,
            location@,
            last_modified as int,
        ));
    }
    let (size, p5) = match parse_u64(src, p4) {
        Some(x) => x,
        None => {
            proof {
                reveal(spec_parse_size);
                assert(spec_parse_size(src@, p4 as int, location@, last_modified as int) is None);
            }
            return Err(StreamError::CacheCorruption("invalid cache record".to_owned()));
        },
    };
    let p6 = match expect_lit(src, p5, ",\"e_tag\":") {
        Some(p) => p,
        None => {
            proof {
                reveal(spec_parse_size);
                assert(spec_parse_size(src@, p4 as int, location@, last_modified as int) is None);
            }
            return Err(StreamError::CacheCorruption("invalid cache record".to_owned()));
        },
    };
    proof {
        reveal(spec_parse_size);
        assert(spec_parse_size(src@, p4 as int, location@, last_modified as int)
            == spec_parse_e_tag(src@, p6 as int, location@, last_modified as int, size as int));
    }
    let (e_tag, p7) = match parse_opt_string(src, p6) {
        Some(x) => x,
        None => {
            proof {
                reveal(spec_parse_e_tag);
                assert(spec_parse_e_tag(
                    src@,
                    p6 as int,
                    location@,
                    last_modified as int,
                    size as int,
                ) is None);
            }
            return Err(StreamError::CacheCorruption("invalid cache record".to_owned()));
        },
    };
    let ghost e_tag_view: Option<Seq<char>> = match e_tag {
        Some(ref t) => Some(t@),
        None => None,
    };
    let p7a = match expect_lit(src, p7, "}") {
        Some(p) => p,
        None => {
            proof {
                reveal(spec_parse_e_tag);
                assert(spec_parse_e_tag(
                    src@,
                    p6 as int,
                    location@,
                    last_modified as int,
                    size as int,
                ) is None);
            }
            return Err(StreamError::CacheCorruption("invalid cache record".to_owned()));
        },
    };
    let p8 = match expect_lit(src, p7a, ",\"resource_path\":") {
        Some(p) => p,
        None => {
            proof {
                reveal(spec_parse_e_tag);
                assert(spec_parse_e_tag(
                    src@,
                    p6 as int,
                    location@,
                    last_modified as int,
                    size as int,
                ) is None);
            }
            return Err(StreamError::CacheCorruption("invalid cache record".to_owned()));
        },
    };
    proof {
        reveal(spec_parse_e_tag);
        assert(spec_parse_e_tag(src@, p6 as int, location@, last_modified as int, size as int)
            == spec_parse_resource_path(
            src@,
            p8 as int,
            location@,
            last_modified as int,
            size as int,
            e_tag_view,
        ));
    }
    let (resource_path, p9) = match parse_json_string(src, p8) {
        Some(x) => x,
        None => {
            proof {
                reveal(spec_parse_resource_path);
                assert(spec_parse_resource_path(
                    src@,
                    p8 as int,
                    location@,
                    last_modified as int,
                    size as int,
                    e_tag_view,
                ) is None);
            }
            return Err(StreamError::CacheCorruption("invalid cache record".to_owned()));
        },
    };
    let p10 = match expect_lit(src, p9, ",\"meta_path\":") {
        Some(p) => p,
        None => {
            proof {
                reveal(spec_parse_resource_path);
                assert(spec_parse_resource_path(
                    src@,
                    p8 as int,
                    location@,
                    last_modified as int,
                    size as int,
                    e_tag_view,
                ) is None);
            }
            return Err(StreamError::CacheCorruption("invalid cache record".to_owned()));
        },
    };
    proof {
        reveal(spec_parse_resource_path);
        assert(spec_parse_resource_path(
            src@,
            p8 as int,
            location@,
            last_modified as int,
            size as int,
            e_tag_view,
        ) == spec_parse_meta_path(
            src@,
            p10 as int,
            location@,
            last_modified as int,
            size as int,
            e_tag_view,
            resource_path@,
        ));
    }
    let (meta_path, p11) = match parse_json_string(src, p10) {
        Some(x) => x,
        None => {
            proof {
                reveal(spec_parse_meta_path);
                assert(spec_parse_meta_path(
                    src@,
                    p10 as int,
                    location@,
                    last_modified as int,
                    size as int,
                    e_tag_view,
                    resource_path@,
                ) is None);
            }
            return Err(StreamError::CacheCorruption("invalid cache record".to_owned()));
        },
    };
    let p12 = match expect_lit(src, p11, ",\"expires\":") {
        Some(p) => p,
        None => {
            proof {
                reveal(spec_parse_meta_path);
                assert(spec_parse_meta_path(
                    src@,
                    p10 as int,
                    location@,
                    last_modified as int,
                    size as int,
                    e_tag_view,
                    resource_path@,
                ) is None);
            }
            return Err(StreamError::CacheCorruption("invalid cache record".to_owned()));
        },
    };
    proof {
        reveal(spec_parse_meta_path);
        assert(spec_parse_meta_path(
            src@,
            p10 as int,
            location@,
            last_modified as int,
            size as int,
            e_tag_view,
            resource_path@,
        ) == spec_parse_expires(
            src@,
            p12 as int,
            location@,
            last_modified as int,
            size as int,
            e_tag_view,
            resource_path@,
            meta_path@,
        ));
    }
    let (expires, p13) = match parse_opt_u64(src, p12) {
        Some(x) => x,
        None => {
            proof {
                reveal(spec_parse_expires);
                assert(spec_parse_expires(
                    src@,
                    p12 as int,
                    location@,
                    last_modified as int,
                    size as int,
                    e_tag_view,
                    resource_path@,
                    meta_path@,
                ) is None);
            }
            return Err(StreamError::CacheCorruption("invalid cache record".to_owned()));
        },
    };
    let ghost expires_view: Option<int> = match expires {
        Some(e) => Some(e as int),
        None => None,
    };
    let p14 = match expect_lit(src, p13, ",\"creation_time\":") {
        Some(p) => p,
        None => {
            proof {
                reveal(spec_parse_expires);
                assert(spec_parse_expires(
                    src@,
                    p12 as int,
                    location@,
                    last_modified as int,
                    size as int,
                    e_tag_view,
                    resource_path@,
                    meta_path@,
                ) is None);
            }
            return Err(StreamError::CacheCorruption("invalid cache record".to_owned()));
        },
    };
    proof {
        reveal(spec_parse_expires);
        assert(spec_parse_expires(
            src@,
            p12 as int,
            location@,
            last_modified as int,
            size as int,
            e_tag_view,
            resource_path@,
            meta_path@,
        ) == spec_parse_creation(
            src@,
            p14 as int,
            location@,
            last_modified as int,
            size as int,
            e_tag_view,
            resource_path@,
            meta_path@,
            expires_view,
        ));
    }
    let (creation_time, p15) = match parse_u64(src, p14) {
        Some(x) => x,
        None => {
            proof {
                reveal(spec_parse_creation);
                assert(spec_parse_creation(
                    src@,
                    p14 as int,
                    location@,
                    last_modified as int,
                    size as int,
                    e_tag_view,
                    resource_path@,
                    meta_path@,
                    expires_view,
                ) is None);
            }
            return Err(StreamError::CacheCorruption("invalid cache record".to_owned()));
        },
    };
    let p16 = match expect_lit(src, p15, "}") {
        Some(p) => p,
        None => {
            proof {
                reveal(spec_parse_creation);
                assert(spec_parse_creation(
                    src@,
                    p14 as int,
                    location@,
                    last_modified as int,
                    size as int,
                    e_tag_view,
                    resource_path@,
                    meta_path@,
                    expires_view,
                ) is None);
            }
            return Err(StreamError::CacheCorruption("invalid cache record".to_owned()));
        },
    };
    if p16 != n {
        proof {
            reveal(spec_parse_creation);
            assert(spec_parse_creation(
                src@,
                p14 as int,
                location@,
                last_modified as int,
                size as int,
                e_tag_view,
                resource_path@,
                meta_path@,
                expires_view,
            ) is None);
        }
        return Err(StreamError::CacheCorruption("invalid cache record".to_owned()));
    }
    let m = Meta {
        meta_data: FileMetadata { location, last_modified, size, e_tag },
        resource_path,
        meta_path,
        expires,
        creation_time,
    };
    proof {
        reveal(spec_parse_creation);
        assert(spec_parse_creation(
            src@,
            p14 as int,
            location@,
            last_modified as int,
            size as int,
            e_tag_view,
            resource_path@,
            meta_path@,
            expires_view,
        ) == Some(spec_meta_parts(&m)));
        lemma_assemble_meta_json(
            src@,
            &m,
            p0a as int,
            p0 as int,
            p1 as int,
            p2 as int,
            p3 as int,
            p4 as int,
            p5 as int,
            p6 as int,
            p7 as int,
            p7a as int,
            p8 as int,
            p9 as int,
            p10 as int,
            p11 as int,
            p12 as int,
            p13 as int,
            p14 as int,
            p15 as int,
            p16 as int,
        );
    }
    Ok(m)
}

/// Reading back a written record returns the record: parsing is complete
/// and exact on every canonical record, so the on-disk round trip is
/// lossless.
#[verifier::rlimit(100)]
#[verifier::spinoff_prover]
pub proof fn lemma_meta_json_round_trip(m: &Meta)
    ensures
        spec_meta_parse(spec_meta_json(m)) == Some(spec_meta_parts(m)),
{
    reveal_strlit("null");
    reveal_strlit(",\"size\":");
    reveal_strlit(",\"e_tag\":");
    reveal_strlit(",\"creation_time\":");
    reveal_strlit("}");
    let s = spec_meta_json(m);
    let loc = m.meta_data.location@;
    let etv: Option<Seq<char>> = match m.meta_data.e_tag {
        Some(ref t) => Some(t@),
        None => None,
    };
    let exv: Option<int> = match m.expires {
        Some(e) => Some(e as int),
        None => None,
    };
    let l1 = "{\"meta_data\":"@.len() as int;
    let l2 = l1 + "{\"location\":"@.len();
    let l3 = l2 + spec_json_string(loc).len();
    let l4 = l3 + ",\"last_modified\":"@.len();
    let l5 = l4 + spec_digits(m.meta_data.last_modified as int).len();
    let l6 = l5 + ",\"size\":"@.len();
    let l7 = l6 + spec_digits(m.meta_data.size as int).len();
    let l8 = l7 + ",\"e_tag\":"@.len();
    let l9 = l8 + spec_opt_string_json(etv).len();
    let l10 = l9 + "}"@.len();
    let l11 = l10 + ",\"resource_path\":"@.len();
    let l12 = l11 + spec_json_string(m.resource_path@).len();
    let l13 = l12 + ",\"meta_path\":"@.len();
    let l14 = l13 + spec_json_string(m.meta_path@).len();
    let l15 = l14 + ",\"expires\":"@.len();
    let l16 = l15 + spec_opt_u64_json(m.expires).len();
    let l17 = l16 + ",\"creation_time\":"@.len();
    let l18 = l17 + spec_digits(m.creation_time as int).len();
    assert(s.len() == l18 + 1);
    assert(s.subrange(0, l1) =~= "{\"meta_data\":"@);
    assert(s.subrange(l1, l2) =~= "{\"location\":"@);
    assert(s.subrange(l2, l3) =~= spec_json_string(loc));
    assert(s.subrange(l3, l4) =~= ",\"last_modified\":"@);
    assert(s.subrange(l4, l5) =~= spec_digits(m.meta_data.last_modified as int));
    assert(s.subrange(l5, l6) =~= ",\"size\":"@);
    assert(s.subrange(l6, l7) =~= spec_digits(m.meta_data.size as int));
    assert(s.subrange(l7, l8) =~= ",\"e_tag\":"@);
    assert(s.subrange(l8, l9) =~= spec_opt_string_json(etv));
    assert(s.subrange(l9, l10) =~= "}"@);
    assert(s.subrange(l10, l11) =~= ",\"resource_path\":"@);
    assert(s.subrange(l11, l12) =~= spec_json_string(m.resource_path@));
    assert(s.subrange(l12, l13) =~= ",\"meta_path\":"@);
    assert(s.subrange(l13, l14) =~= spec_json_string(m.meta_path@));
    assert(s.subrange(l14, l15) =~= ",\"expires\":"@);
    assert(s.subrange(l15, l16) =~= spec_opt_u64_json(m.expires));
    assert(s.subrange(l16, l17) =~= ",\"creation_time\":"@);
    assert(s.subrange(l17, l18) =~= spec_digits(m.creation_time as int));
    assert(s.subrange(l18, l18 + 1) =~= "}"@);
    // a canonical string piece parses back to its characters
    lemma_meta_jstring_piece(s, l2, loc);
    lemma_meta_jstring_piece(s, l11, m.resource_path@);
    lemma_meta_jstring_piece(s, l13, m.meta_path@);
    // the numbers end where the following literals begin
    assert(s[l5] == ',') by {
        assert(s.subrange(l5, l6)[0] == ',');
    }
    assert(s[l7] == ',') by {
        assert(s.subrange(l7, l8)[0] == ',');
    }
    assert(s[l18] == '}') by {
        assert(s.subrange(l18, l18 + 1)[0] == '}');
    }
    lemma_parse_number_complete(m.meta_data.last_modified, s, l4);
    lemma_parse_number_complete(m.meta_data.size, s, l6);
    lemma_parse_number_complete(m.creation_time, s, l17);
    // the optional pieces
    match m.meta_data.e_tag {
        Some(ref t) => {
            assert(s[l8] == '"') by {
                assert(s.subrange(l8, l9)[0] == '"');
            }
            assert(!spec_null_at(s, l8)) by {
                if spec_null_at(s, l8) {
                    assert(s.subrange(l8, l8 + 4)[0] == 'n');
                }
            }
            lemma_meta_jstring_piece(s, l8, t@);
            assert(spec_parse_opt_jstring(s, l8) == Some((etv, l9)));
        },
        None => {
            assert(spec_null_at(s, l8)) by {
                assert(s.subrange(l8, l8 + 4) =~= "null"@);
            }
            assert(spec_parse_opt_jstring(s, l8) == Some((etv, l9)));
        },
    }
    match m.expires {
        Some(e) => {
            assert(s.subrange(l15, l16) =~= spec_digits(e as int));
            lemma_digits_shape(e as int);
            assert(spec_is_digit(s[l15])) by {
                assert(s.subrange(l15, l16)[0] == spec_digits(e as int)[0]);
            }
            assert(s[l16] == ',') by {
                assert(s.subrange(l16, l17)[0] == ',');
            }
            assert(!spec_null_at(s, l15)) by {
                if spec_null_at(s, l15) {
                    assert(s.subrange(l15, l15 + 4)[0] == 'n');
                }
            }
            lemma_parse_number_complete(e, s, l15);
            assert(spec_parse_opt_number(s, l15) == Some((exv, l16)));
        },
        None => {
            assert(spec_null_at(s, l15)) by {
                assert(s.subrange(l15, l15 + 4) =~= "null"@);
            }
            assert(spec_parse_opt_number(s, l15) == Some((exv, l16)));
        },
    }
    // walk the stages
    assert(spec_lit_at(s, 0, "{\"meta_data\":"@));
    assert(spec_lit_at(s, l1, "{\"location\":"@));
    assert(spec_lit_at(s, l3, ",\"last_modified\":"@));
    assert(spec_lit_at(s, l5, ",\"size\":"@));
    assert(spec_lit_at(s, l7, ",\"e_tag\":"@));
    assert(spec_lit_at(s, l9, "}"@));
    assert(spec_lit_at(s, l10, ",\"resource_path\":"@));
    assert(spec_lit_at(s, l12, ",\"meta_path\":"@));
    assert(spec_lit_at(s, l14, ",\"expires\":"@));
    assert(spec_lit_at(s, l16, ",\"creation_time\":"@));
    assert(spec_lit_at(s, l18, "}"@));
    reveal(spec_meta_parse);
    reveal(spec_parse_location);
    reveal(spec_parse_last_modified);
    reveal(spec_parse_size);
    reveal(spec_parse_e_tag);
    reveal(spec_parse_resource_path);
    reveal(spec_parse_meta_path);
    reveal(spec_parse_expires);
    reveal(spec_parse_creation);
    assert(spec_meta_parse(s) == spec_parse_location(s, l2));
    assert(spec_parse_location(s, l2) == spec_parse_last_modified(s, l4, loc));
    assert(spec_parse_last_modified(s, l4, loc) == spec_parse_size(
        s,
        l6,
        loc,
        m.meta_data.last_modified as int,
    ));
    assert(spec_parse_size(s, l6, loc, m.meta_data.last_modified as int) == spec_parse_e_tag(
        s,
        l8,
        loc,
        m.meta_data.last_modified as int,
        m.meta_data.size as int,
    ));
    assert(spec_parse_e_tag(
        s,
        l8,
        loc,
        m.meta_data.last_modified as int,
        m.meta_data.size as int,
    ) == spec_parse_resource_path(
        s,
        l11,
        loc,
        m.meta_data.last_modified as int,
        m.meta_data.size as int,
        etv,
    ));
    assert(spec_parse_resource_path(
        s,
        l11,
        loc,
        m.meta_data.last_modified as int,
        m.meta_data.size as int,
        etv,
    ) == spec_parse_meta_path(
        s,
        l13,
        loc,
        m.meta_data.last_modified as int,
        m.meta_data.size as int,
        etv,
        m.resource_path@,
    ));
    assert(spec_parse_meta_path(
        s,
        l13,
        loc,
        m.meta_data.last_modified as int,
        m.meta_data.size as int,
        etv,
        m.resource_path@,
    ) == spec_parse_expires(
        s,
        l15,
        loc,
        m.meta_data.last_modified as int,
        m.meta_data.size as int,
        etv,
        m.resource_path@,
        m.meta_path@,
    ));
    assert(spec_parse_expires(
        s,
        l15,
        loc,
        m.meta_data.last_modified as int,
        m.meta_data.size as int,
        etv,
        m.resource_path@,
        m.meta_path@,
    ) == spec_parse_creation(
        s,
        l17,
        loc,
        m.meta_data.last_modified as int,
        m.meta_data.size as int,
        etv,
        m.resource_path@,
        m.meta_path@,
        exv,
    ));
    assert(spec_parse_creation(
        s,
        l17,
        loc,
        m.meta_data.last_modified as int,
        m.meta_data.size as int,
        etv,
        m.resource_path@,
        m.meta_path@,
        exv,
    ) == Some(spec_meta_parts(m)));
}

/// A canonical JSON string piece inside a larger text parses back to its
/// characters, ending just past its closing quote.
proof fn lemma_meta_jstring_piece(s: Seq<char>, p: int, t: Seq<char>)
    requires
        0 <= p,
        p + spec_json_string(t).len() <= s.len(),
        s.subrange(p, p + spec_json_string(t).len()) == spec_json_string(t),
    ensures
        spec_parse_jstring(s, p) == Some((t, p + spec_json_string(t).len())),
{
    let piece = s.subrange(p, p + spec_json_string(t).len());
    assert(piece[0] == '"');
    assert(s[p] == '"');
    assert forall|j: int| 0 <= j < spec_escape_seq(t).len() + 1 implies s.subrange(
        p + 1,
        p + 1 + spec_escape_seq(t).len() + 1,
    )[j] == (spec_escape_seq(t) + seq!['"'])[j] by {
        assert(s.subrange(p + 1, p + 1 + spec_escape_seq(t).len() + 1)[j] == piece[1 + j]);
        assert(piece[1 + j] == (seq!['"'] + spec_escape_seq(t) + seq!['"'])[1 + j]);
    }
    assert(s.subrange(p + 1, p + 1 + spec_escape_seq(t).len() + 1) =~= spec_escape_seq(t)
        + seq!['"']);
    lemma_parse_string_complete(t, s, p + 1);
}

/// Writes the record as JSON, exactly in its canonical form.
pub fn meta_to_json(m: &Meta) -> (r: String)
    ensures
        r@ == spec_meta_json(m),
{
    let mut out = String::new();
    out.append("{\"meta_data\":");
    out.append("{\"location\":");
    push_json_string(&mut out, m.meta_data.location.as_str());
    out.append(",\"last_modified\":");
    out.append(u64_to_string(m.meta_data.last_modified).as_str());
    out.append(",\"size\":");
    out.append(u64_to_string(m.meta_data.size).as_str());
    out.append(",\"e_tag\":");
    match &m.meta_data.e_tag {
        Some(t) => push_json_string(&mut out, t.as_str()),
        None => out.append("null"),
    }
    out.append("}");
    out.append(",\"resource_path\":");
    push_json_string(&mut out, m.resource_path.as_str());
    out.append(",\"meta_path\":");
    push_json_string(&mut out, m.meta_path.as_str());
    out.append(",\"expires\":");
    match m.expires {
        Some(e) => out.append(u64_to_string(e).as_str()),
        None => out.append("null"),
    }
    out.append(",\"creation_time\":");
    out.append(u64_to_string(m.creation_time).as_str());
    out.append("}");
    proof {
        assert(out@ =~= spec_meta_json(m));
    }
    out
}

/// The digest of a byte sequence under the cache's hash. The hash of given
/// bytes is a function of the bytes alone, so it carries a name; what the
/// digest's bits are is never stated.
pub uninterp spec fn sha256_of(data: Seq<u8>) -> Seq<u8>;

/// Relies on `sha2::Sha256` through the `Digest` trait: the digest depends
/// on the input bytes alone and is 32 bytes long.
#[verifier::external_body]
fn sha256(data: &Vec<u8>) -> (r: Vec<u8>)
    ensures
        r@ == sha256_of(data@),
        r@.len() == 32,
{
    <sha2::Sha256 as sha2::Digest>::digest(data.as_slice()).as_slice().to_vec()
}

/// Bytes written as lowercase hex, two digits per byte.
pub open spec fn spec_hex_of(bytes: Seq<u8>) -> Seq<char>
    decreases bytes.len(),
{
    if bytes.len() == 0 {
        Seq::empty()
    } else {
        seq![
            spec_hex_digit((bytes.first() as int) / 16),
            spec_hex_digit((bytes.first() as int) % 16),
        ] + spec_hex_of(bytes.drop_first())
    }
}

/// Hex writing distributes over concatenation.
proof fn lemma_hex_append(s: Seq<u8>, t: Seq<u8>)
    ensures
        spec_hex_of(s + t) == spec_hex_of(s) + spec_hex_of(t),
    decreases s.len(),
{
    if s.len() == 0 {
        assert(s + t =~= t);
        assert(spec_hex_of(s) + spec_hex_of(t) =~= spec_hex_of(t));
    } else {
        assert((s + t).first() == s.first());
        assert((s + t).drop_first() =~= s.drop_first() + t);
        lemma_hex_append(s.drop_first(), t);
        let h = seq![
            spec_hex_digit((s.first() as int) / 16),
            spec_hex_digit((s.first() as int) % 16),
        ];
        assert(h + (spec_hex_of(s.drop_first()) + spec_hex_of(t)) =~= (h + spec_hex_of(
            s.drop_first(),
        )) + spec_hex_of(t));
    }
}

/// Writes bytes as lowercase hex.
fn to_hex(bytes: &Vec<u8>) -> (r: String)
    ensures
        r@ == spec_hex_of(bytes@),
{
    let mut out = String::new();
    let n = bytes.len();
    let mut i: usize = 0;
    while i < n
        invariant
            i <= n,
            n == bytes@.len(),
            out@ == spec_hex_of(bytes@.take(i as int)),
        decreases n - i,
    {
        let b = bytes[i];
        let hi = b / 16;
        let lo = b % 16;
        string_push(
            &mut out,
            if hi < 10 {
                (48 + hi) as char
            } else {
                (87 + hi) as char
            },
        );
        string_push(
            &mut out,
            if lo < 10 {
                (48 + lo) as char
            } else {
                (87 + lo) as char
            },
        );
        proof {
            assert(bytes@.take(i + 1) =~= bytes@.take(i as int) + seq![bytes@[i as int]]);
            lemma_hex_append(bytes@.take(i as int), seq![bytes@[i as int]]);
            let single = seq![bytes@[i as int]];
            assert(single.first() == bytes@[i as int]);
            assert(single.drop_first() =~= Seq::<u8>::empty());
            assert(spec_hex_of(single.drop_first()) =~= Seq::<char>::empty());
            assert(spec_hex_of(single) =~= seq![
                spec_hex_digit((bytes@[i as int] as int) / 16),
                spec_hex_digit((bytes@[i as int] as int) % 16),
            ]);
            assert(out@ =~= spec_hex_of(bytes@.take(i + 1)));
        }
        i = i + 1;
    }
    proof {
        assert(bytes@.take(n as int) =~= bytes@);
    }
    out
}

/// The file name a resource is cached under: the hex digest of the
/// provider's credential hash followed by the resource name, then — when
/// the provider reported an entity tag — a dot and the tag's hex digest,
/// then any suffix asked for.
pub open spec fn spec_resource_filename(
    provider_hash: Seq<u8>,
    resource: Seq<u8>,
    suffix: Option<Seq<char>>,
    e_tag: Option<Seq<u8>>,
) -> Seq<char> {
    let rh = spec_hex_of(sha256_of(provider_hash + resource));
    let with_tag = match e_tag {
        Some(t) => rh + seq!['.'] + spec_hex_of(sha256_of(t)),
        None => rh,
    };
    match suffix {
        Some(x) => with_tag + x,
        None => with_tag,
    }
}

/// The full path of a cached resource: the cache root, any subdirectory,
/// and the file name.
pub open spec fn spec_resource_filepath(
    dir: Seq<char>,
    subdir: Option<Seq<char>>,
    filename: Seq<char>,
) -> Seq<char> {
    match subdir {
        Some(sd) => dir + seq!['/'] + sd + seq!['/'] + filename,
        None => dir + seq!['/'] + filename,
    }
}

/// Computes where a resource is cached under the cache root `dir`.
pub fn resource_to_filepath(
    dir: &str,
    provider_hash: &Vec<u8>,
    resource: &str,
    subdir: Option<&str>,
    suffix: Option<&str>,
    e_tag: Option<&str>,
) -> (r: String)
    ensures
        r@ == spec_resource_filepath(
            dir@,
            match subdir {
                Some(sd) => Some(sd@),
                None => None,
            },
            spec_resource_filename(
                provider_hash@,
                resource.spec_bytes(),
                match suffix {
                    Some(x) => Some(x@),
                    None => None,
                },
                match e_tag {
                    Some(t) => Some(t.spec_bytes()),
                    None => None,
                },
            ),
        ),
{
    let mut keyed: Vec<u8> = Vec::new();
    crate::icy::push_bytes(&mut keyed, provider_hash);
    crate::icy::push_str_bytes(&mut keyed, resource);
    let mut filename = to_hex(&sha256(&keyed));
    if let Some(t) = e_tag {
        let mut tag_bytes: Vec<u8> = Vec::new();
        crate::icy::push_str_bytes(&mut tag_bytes, t);
        string_push(&mut filename, '.');
        filename.append(to_hex(&sha256(&tag_bytes)).as_str());
    }
    if let Some(x) = suffix {
        filename.append(x);
    }
    let mut path = dir.to_owned();
    string_push(&mut path, '/');
    if let Some(sd) = subdir {
        path.append(sd);
        string_push(&mut path, '/');
    }
    path.append(filename.as_str());
    proof {
        assert(path@ =~= spec_resource_filepath(
            dir@,
            match subdir {
                Some(sd) => Some(sd@),
                None => None,
            },
            spec_resource_filename(
                provider_hash@,
                resource.spec_bytes(),
                match suffix {
                    Some(x) => Some(x@),
                    None => None,
                },
                match e_tag {
                    Some(t) => Some(t.spec_bytes()),
                    None => None,
                },
            ),
        ));
    }
    path
}


} // verus!
