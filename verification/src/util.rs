//! Names and headers: what servers write, and what files are called.
use vstd::prelude::*;
use vstd::string::*;
use vstd::utf8::{
    char_is_scalar, char_u32_cast, decode_utf8, encode_scalar, encode_utf8, encode_utf8_decode_utf8,
    encode_utf8_valid_utf8, has_width_1_encoding, is_ascii_chars, is_ascii_chars_encode_utf8,
    is_char_boundary, is_char_boundary_iff_not_is_continuation_byte,
    is_char_boundary_start_end_of_seq, is_scalar,
    last_continuation_byte, leading_byte_width_1, leading_byte_width_2, leading_byte_width_3,
    leading_byte_width_4, second_last_continuation_byte, third_last_continuation_byte, valid_utf8,
};

use crate::number::{
    decimal, hex, hex_value, hex_value_of, integer, law_integer_reads_back,
    law_padded_integer_reads_back, lemma_decimal_reads_back, lemma_hex_digits, padded_decimal,
    push_hex, push_padded_decimal, read_integer, signed_decimal,
};
use crate::text::{
    back, behind, chars_of, find, find_char, found, front, is_white_space, law_trim_takes_the_ends,
    lemma_found_behind, lemma_found_from, lemma_trim_keeps, lemma_trimmed, lower, occurs_at,
    same_chars, same_ignoring_case, same_text,
    string_of, to_lower, trim, trimmed, Trim,
};
use crate::url::{parsed_segments, url_segments};

verus! {

// ---------------------------------------------------------------- Content-Range

/// The fifth byte of the text is the end of a character, or there are fewer bytes.
pub open spec fn cuts_clean(s: Seq<char>) -> bool {
    encode_utf8(s).len() < 5 || is_char_boundary(encode_utf8(s), 5)
}

/// The total in a Content-Range: a number, or a star for an unknown one.
pub open spec fn total_size(s: Seq<char>) -> Option<i64> {
    if s == "*"@ {
        Some(-1i64)
    } else {
        integer(s)
    }
}

/// The first byte, the last byte and the total that a Content-Range gives.
pub open spec fn content_range(v: Seq<char>) -> Option<(i64, i64, i64)> {
    let t = trimmed(v, Trim::Space);
    if t.len() < 5 || lower(t.take(5)) != lower("bytes"@) {
        None
    } else {
        let rest = trimmed(t.skip(5), Trim::Space);
        match found(rest, seq!['/']) {
            None => None,
            Some(slash) => {
                let range = trimmed(rest.take(slash), Trim::Space);
                let total = total_size(trimmed(rest.skip(slash + 1), Trim::Space));
                match found(range, seq!['-']) {
                    None => None,
                    Some(dash) => {
                        let first = integer(trimmed(range.take(dash), Trim::Space));
                        let last = integer(trimmed(range.skip(dash + 1), Trim::Space));
                        match (first, last, total) {
                            (Some(a), Some(b), Some(n)) => Some((a, b, n)),
                            _ => None,
                        }
                    },
                }
            },
        }
    }
}

/// Reads "bytes start-end/total".
pub fn parse_content_range(v: &str) -> (r: Option<(i64, i64, i64)>)
    requires
        cuts_clean(trimmed(v@, Trim::Space)),
    ensures
        r == content_range(v@),
{
    let chars = chars_of(v);
    let t = trim(chars.as_slice(), Trim::Space);
    if t.len() < 5 {
        return None;
    }
    let unit = chars_of("bytes");
    if !same_ignoring_case(front(t, 5), unit.as_slice()) {
        return None;
    }
    let rest = trim(back(t, 5), Trim::Space);
    let slash: usize = match find_char(rest, '/') {
        Some(i) => i,
        None => return None,
    };
    let range = trim(front(rest, slash), Trim::Space);
    let total_part = trim(behind(rest, slash), Trim::Space);
    let dash: usize = match find_char(range, '-') {
        Some(i) => i,
        None => return None,
    };
    let first: i64 = match read_integer(trim(front(range, dash), Trim::Space)) {
        Some(i) => i,
        None => return None,
    };
    let last: i64 = match read_integer(trim(behind(range, dash), Trim::Space)) {
        Some(i) => i,
        None => return None,
    };
    let star = chars_of("*");
    let total: i64 = if same_chars(total_part, star.as_slice()) {
        -1
    } else {
        match read_integer(total_part) {
            Some(i) => i,
            None => return None,
        }
    };
    Some((first, last, total))
}

// ---------------------------------------------------------------- percent encoding

/// Bytes with every `%` and two hexadecimal digits replaced by the byte that they stand
/// for; a `%` without them stays.
pub open spec fn percent_decoded(b: Seq<u8>) -> Seq<u8>
    decreases b.len(),
{
    if b.len() == 0 {
        Seq::empty()
    } else if b[0] == 37 && b.len() > 2 && hex_value(b[1]) is Some && hex_value(b[2]) is Some {
        seq![(hex_value(b[1])->0 * 16 + hex_value(b[2])->0) as u8] + percent_decoded(b.skip(3))
    } else {
        seq![b[0]] + percent_decoded(b.skip(1))
    }
}

/// Replaces the percent sequences in `b`.
pub fn percent_decoded_bytes(b: &[u8]) -> (out: Vec<u8>)
    ensures
        out@ == percent_decoded(b@),
{
    let mut out: Vec<u8> = Vec::new();
    let mut i: usize = 0;
    let n: usize = b.len();
    assert(b@.skip(0) =~= b@);
    while i < n
        invariant
            n == b@.len(),
            i <= n,
            out@ + percent_decoded(b@.skip(i as int)) =~= percent_decoded(b@),
        decreases n - i,
    {
        let ghost rest = b@.skip(i as int);
        let ghost before = out@;
        if b[i] == 37 && n - i > 2 {
            let hi = hex_value_of(b[i + 1]);
            let lo = hex_value_of(b[i + 2]);
            if let (Some(h), Some(l)) = (hi, lo) {
                let byte: u8 = h * 16 + l;
                out.push(byte);
                assert(rest.skip(3) =~= b@.skip(i + 3));
                assert(out@ =~= before + seq![byte]);
                i = i + 3;
                continue ;
            }
        }
        out.push(b[i]);
        assert(rest.skip(1) =~= b@.skip(i + 1));
        assert(out@ =~= before + seq![b@[i as int]]);
        i = i + 1;
    }
    assert(out@ =~= percent_decoded(b@));
    out
}

/// The text that `String::from_utf8_lossy` makes of bytes: what is not UTF-8 is replaced
/// by a mark.
pub uninterp spec fn utf8_lossy(bytes: Seq<u8>) -> Seq<char>;

/// `String::from_utf8_lossy` of the standard library. Its result depends on the bytes
/// alone, and bytes that are UTF-8 are read as they stand.
#[verifier::external_body]
fn from_utf8_lossy(bytes: &[u8]) -> (s: String)
    ensures
        s@ == utf8_lossy(bytes@),
        valid_utf8(bytes@) ==> s@ == decode_utf8(bytes@),
{
    String::from_utf8_lossy(bytes).into_owned()
}

/// A text with its percent sequences replaced: the text that the bytes encode, or, where
/// they are not UTF-8, what is made of them nevertheless.
pub open spec fn decoded(s: Seq<char>) -> Seq<char> {
    let bytes = percent_decoded(encode_utf8(s));
    if valid_utf8(bytes) {
        decode_utf8(bytes)
    } else {
        utf8_lossy(bytes)
    }
}

/// Replaces the percent sequences in a text.
pub fn percent_decode(s: &str) -> (r: String)
    ensures
        r@ == decoded(s@),
        !s@.contains('%') ==> r@ == s@,
{
    proof {
        if !s@.contains('%') {
            law_plain_text_is_kept(s@);
        }
    }
    let out = percent_decoded_bytes(s.as_bytes());
    from_utf8_lossy(out.as_slice())
}

// ---------------------------------------------------------------- Content-Disposition

/// A text up to the first `c`.
pub open spec fn cut_at(s: Seq<char>, c: char) -> Seq<char> {
    match found(s, seq![c]) {
        Some(i) => s.take(i),
        None => s,
    }
}

/// The raw value of an extended `filename*=` parameter: what follows the two quotes.
pub open spec fn extended_name(cd: Seq<char>) -> Option<Seq<char>> {
    match found(lower(cd), "filename*="@) {
        None => None,
        Some(i) => {
            let value = trimmed(cut_at(cd.skip(i + 10), ';'), Trim::Space);
            match found(value, "''"@) {
                None => None,
                Some(p) => Some(value.skip(p + 2)),
            }
        },
    }
}

/// The value of a plain `filename=` parameter, without quotes.
pub open spec fn plain_name(cd: Seq<char>) -> Option<Seq<char>> {
    match found(lower(cd), "filename="@) {
        None => None,
        Some(i) => Some(
            trimmed(trimmed(cut_at(cd.skip(i + 9), ';'), Trim::Space), Trim::Quote),
        ),
    }
}

/// The file name that a Content-Disposition gives, or an empty text.
pub open spec fn disposition_name(cd: Seq<char>) -> Seq<char> {
    match extended_name(cd) {
        Some(raw) => decoded(raw),
        None => match plain_name(cd) {
            Some(name) => name,
            None => Seq::empty(),
        },
    }
}

fn cut(v: &[char], c: char) -> (r: &[char])
    ensures
        r@ == cut_at(v@, c),
{
    match find_char(v, c) {
        Some(i) => front(v, i),
        None => v,
    }
}

/// The raw value of an extended parameter.
pub fn extended_filename(cd: &str) -> (r: Option<String>)
    ensures
        r is Some <==> extended_name(cd@) is Some,
        r matches Some(raw) ==> extended_name(cd@) == Some(raw@),
{
    let chars = chars_of(cd);
    let low = to_lower(chars.as_slice());
    let key = chars_of("filename*=");
    let quotes = chars_of("''");
    proof {
        reveal_strlit("filename*=");
        reveal_strlit("''");
    }
    match find(low.as_slice(), key.as_slice()) {
        None => None,
        Some(i) => {
            let value = trim(cut(back(chars.as_slice(), i + 10), ';'), Trim::Space);
            match find(value, quotes.as_slice()) {
                None => None,
                Some(p) => Some(string_of(back(value, p + 2))),
            }
        },
    }
}

/// The value of a plain parameter.
pub fn plain_filename(cd: &str) -> (r: Option<String>)
    ensures
        r is Some <==> plain_name(cd@) is Some,
        r matches Some(name) ==> plain_name(cd@) == Some(name@),
{
    let chars = chars_of(cd);
    let low = to_lower(chars.as_slice());
    let key = chars_of("filename=");
    proof {
        reveal_strlit("filename=");
    }
    match find(low.as_slice(), key.as_slice()) {
        None => None,
        Some(i) => {
            let value = trim(cut(back(chars.as_slice(), i + 9), ';'), Trim::Space);
            Some(string_of(trim(value, Trim::Quote)))
        },
    }
}

/// Takes the file name out of a Content-Disposition (`filename*` or `filename`).
pub fn parse_filename(cd: &str) -> (name: String)
    ensures
        name@ == disposition_name(cd@),
{
    if cd.is_empty() {
        proof {
            reveal_strlit("filename*=");
            reveal_strlit("filename=");
            assert(lower(cd@).len() == 0);
        }
        return String::new();
    }
    match extended_filename(cd) {
        Some(raw) => percent_decode(raw.as_str()),
        None => match plain_filename(cd) {
            Some(name) => name,
            None => String::new(),
        },
    }
}

// ---------------------------------------------------------------- names from addresses

/// The name in the last path segment, or an empty text.
pub open spec fn segment_name(segments: Option<Seq<Seq<char>>>) -> Seq<char> {
    match segments {
        None => Seq::empty(),
        Some(v) => {
            let last = if v.len() == 0 {
                Seq::empty()
            } else {
                v.last()
            };
            if last.len() == 0 || last == "."@ || last == "/"@ {
                Seq::empty()
            } else {
                decoded(last)
            }
        },
    }
}

/// The texts of strings.
pub open spec fn texts(v: Seq<String>) -> Seq<Seq<char>> {
    v.map_values(|s: String| s@)
}

/// The name in the last of the given path segments.
pub fn name_of_segments(segments: Option<Vec<String>>) -> (name: String)
    ensures
        segments is None ==> name@ == segment_name(None),
        segments matches Some(v) ==> name@ == segment_name(Some(texts(v@))),
{
    match segments {
        None => String::new(),
        Some(v) => {
            if v.len() == 0 {
                return String::new();
            }
            let last = v[v.len() - 1].as_str();
            assert(last@ == texts(v@).last());
            if last.is_empty() || same_text(last, ".") || same_text(last, "/") {
                return String::new();
            }
            percent_decode(last)
        },
    }
}

/// Guesses a file name from the path of an address.
pub fn filename_from_url(raw: &str) -> (name: String)
    ensures
        name@ == segment_name(url_segments(raw@)),
{
    let segments = parsed_segments(raw);
    assert(segments matches Some(v) ==> texts(v@) =~= url_segments(raw@)->0);
    name_of_segments(segments)
}

// ---------------------------------------------------------------- names for files

/// The characters that some system does not allow in a file name.
pub open spec fn is_forbidden(c: char) -> bool {
    c == '\\' || c == '/' || c == ':' || c == '*' || c == '?' || c == '"' || c == '<' || c == '>'
        || c == '|'
}

/// A text with the forbidden characters replaced by underscores.
pub open spec fn replaced(s: Seq<char>) -> Seq<char> {
    s.map_values(
        |c: char|
            if is_forbidden(c) {
                '_'
            } else {
                c
            },
    )
}

/// A file name made of a path component: without forbidden characters, without blanks
/// and full stops at the ends, and never empty.
pub open spec fn clean_name(base: Seq<char>) -> Seq<char> {
    let s = trimmed(replaced(base), Trim::BlankOrStop);
    if s.len() == 0 {
        "download.bin"@
    } else {
        s
    }
}

/// A text without separators that names an entry of its own.
pub open spec fn is_component(c: Seq<char>) -> bool {
    &&& c.len() > 0
    &&& c != "."@
    &&& c != ".."@
    &&& forall|i: int|
        0 <= i < c.len() ==> #[trigger] c[i] != '/' && c[i] != '\\' && c[i] != ':'
}

/// A separator of path components: the slash, and on some systems the backslash.
pub open spec fn separates(c: char, backslash: bool) -> bool {
    c == '/' || (backslash && c == '\\')
}

/// Where the component that ends a text begins.
pub open spec fn component_start(s: Seq<char>, backslash: bool) -> int
    decreases s.len(),
{
    if s.len() == 0 || separates(s.last(), backslash) {
        s.len() as int
    } else {
        component_start(s.drop_last(), backslash)
    }
}

/// What a path ends in.
pub enum PathEnd {
    /// the name of an entry
    Name(Seq<char>),
    /// nothing that has a name: the root, the current directory, the one above, or nothing
    /// at all
    Nameless,
}

/// What a path ends in: separators at the end, and single full stops behind others,
/// count for nothing.
pub open spec fn path_end(s: Seq<char>, backslash: bool) -> PathEnd
    decreases s.len(),
{
    if s.len() == 0 {
        PathEnd::Nameless
    } else if separates(s.last(), backslash) {
        path_end(s.drop_last(), backslash)
    } else {
        let at = component_start(s, backslash);
        let c = s.skip(at);
        if c == ".."@ {
            PathEnd::Nameless
        } else if c != "."@ {
            PathEnd::Name(c)
        } else if at <= 0 || at >= s.len() {
            PathEnd::Nameless
        } else {
            path_end(s.take(at), backslash)
        }
    }
}

/// `r` is the last component of a path with the given end.
pub open spec fn is_last(r: Option<Seq<char>>, end: PathEnd) -> bool {
    match end {
        PathEnd::Name(c) => r == Some(c),
        PathEnd::Nameless => r is None,
    }
}

/// The path begins with two separators, which some systems take for the name of a server
/// or a device.
pub open spec fn begins_like_server(s: Seq<char>) -> bool {
    s.len() > 1 && separates(s[0], true) && separates(s[1], true)
}

/// The path begins with two separators and a question mark, behind which some systems
/// take everything literally.
pub open spec fn begins_literally(s: Seq<char>) -> bool {
    begins_like_server(s) && s.len() > 2 && s[2] == '?'
}

/// The path begins with what some systems take for a drive.
pub open spec fn begins_like_drive(s: Seq<char>) -> bool {
    s.len() > 1 && s[1] == ':'
}

/// A nonempty part of a path that begins behind a separator or a colon, or at the start,
/// and behind which only separators and full stops follow.
pub open spec fn ends_path(c: Seq<char>, s: Seq<char>, at: int) -> bool {
    &&& c.len() > 0
    &&& occurs_at(s, c, at)
    &&& at > 0 ==> separates(s[at - 1], true) || s[at - 1] == ':'
    &&& forall|i: int|
        at + c.len() <= i < s.len() ==> separates(#[trigger] s[i], true) || s[i] == '.'
}

/// `r` is the last component of a path, on one system or another: the backslash
/// separates or not, a drive stands apart or not, and the name of a server or a device is
/// no component.
pub open spec fn is_last_component(r: Option<Seq<char>>, name: Seq<char>) -> bool {
    &&& r matches Some(c) ==> exists|at: int| #[trigger] ends_path(c, name, at)
    &&& !begins_literally(name) ==> {
        ||| is_last(r, path_end(name, false))
        ||| is_last(r, path_end(name, true))
        ||| begins_like_drive(name) && is_last(r, path_end(name.skip(2), true))
        ||| begins_like_server(name) && r is None
    }
}

/// The text of a string that may be missing.
pub open spec fn text_of(r: Option<String>) -> Option<Seq<char>> {
    match r {
        Some(s) => Some(s@),
        None => None,
    }
}

/// `std::path::Path::file_name`: the last component of a path, if it is the name of an
/// entry. Slashes separate on every system, backslashes on some; separators at the end
/// and full stops between them count for nothing; a path that ends in `..`, or is only a
/// root or the current directory, has none. A drive at the start stands apart on some
/// systems, and where two separators begin the name of a server or a device, the last
/// component may belong to that name, so that there is none. Of a path that begins with
/// two separators and a question mark it is only said that the result ends it.
#[verifier::external_body]
fn last_component(name: &str) -> (r: Option<String>)
    ensures
        is_last_component(text_of(r), name@),
{
    std::path::Path::new(name).file_name().and_then(|s| s.to_str()).map(|s| s.to_string())
}

/// Makes a file name of a path component.
pub fn sanitize_component(base: &str) -> (r: String)
    ensures
        r@ == clean_name(base@),
{
    let chars = chars_of(base);
    let mut out: Vec<char> = Vec::new();
    let mut i: usize = 0;
    while i < chars.len()
        invariant
            i <= chars@.len(),
            chars@ == base@,
            out@ =~= replaced(base@.take(i as int)),
        decreases chars@.len() - i,
    {
        let c = chars[i];
        if c == '\\' || c == '/' || c == ':' || c == '*' || c == '?' || c == '"' || c == '<' || c
            == '>' || c == '|' {
            out.push('_');
        } else {
            out.push(c);
        }
        assert(base@.take(i + 1) =~= base@.take(i as int).push(c));
        i = i + 1;
    }
    assert(base@.take(base@.len() as int) =~= base@);
    let s = trim(out.as_slice(), Trim::BlankOrStop);
    if s.len() == 0 {
        "download.bin".to_owned()
    } else {
        string_of(s)
    }
}

/// `r` is the clean name of a path with the given end; a path that ends in no name is
/// cleaned as a whole.
pub open spec fn is_clean_end(name: Seq<char>, end: PathEnd, r: Seq<char>) -> bool {
    match end {
        PathEnd::Name(c) => r == clean_name(c),
        PathEnd::Nameless => r == clean_name(name),
    }
}

/// `r` is the clean name of the last component of `name`, on one system or another.
pub open spec fn is_sanitized(name: Seq<char>, r: Seq<char>) -> bool {
    if begins_literally(name) {
        r == clean_name(name) || exists|c: Seq<char>, at: int|
            #[trigger] ends_path(c, name, at) && r == clean_name(c)
    } else {
        ||| is_clean_end(name, path_end(name, false), r)
        ||| is_clean_end(name, path_end(name, true), r)
        ||| begins_like_drive(name) && is_clean_end(name, path_end(name.skip(2), true), r)
        ||| begins_like_server(name) && r == clean_name(name)
    }
}

/// Makes a file name of the last component of a path, or of the whole path where it has
/// none.
pub fn name_of_component(name: &str, last: Option<String>) -> (r: String)
    ensures
        r@ == (match last {
            Some(base) => clean_name(base@),
            None => clean_name(name@),
        }),
{
    match last {
        Some(base) => sanitize_component(base.as_str()),
        None => sanitize_component(name),
    }
}

/// Takes out of a file name what some system does not allow.
pub fn sanitize_name(name: &str) -> (r: String)
    ensures
        is_sanitized(name@, r@),
        // a name without a separator, and without what could be a drive, is kept but for
        // the characters that are not allowed
        (forall|i: int| 0 <= i < name@.len() ==> !separates(#[trigger] name@[i], true))
            && !begins_like_drive(name@) ==> r@ == clean_name(name@),
        // a path that ends in no name anywhere is cleaned as a whole
        path_end(name@, false) is Nameless && path_end(name@, true) is Nameless
            && !begins_literally(name@) && !begins_like_drive(name@) ==> r@ == clean_name(name@),
        // with slashes alone, all systems agree
        !name@.contains('\\') && !begins_like_server(name@) && !begins_like_drive(name@)
            ==> is_clean_end(name@, path_end(name@, false), r@),
{
    proof {
        if !name@.contains('\\') {
            law_slashes_separate_everywhere(name@);
        }
        if (forall|i: int| 0 <= i < name@.len() ==> !separates(#[trigger] name@[i], true))
            && name@.len() > 0 {
            assert forall|i: int| 0 <= i < name@.len() implies !separates(
                #[trigger] name@[i],
                false,
            ) by {
                assert(!separates(name@[i], true));
            }
            lemma_no_separator(name@, false);
            lemma_no_separator(name@, true);
            assert(name@.skip(0) =~= name@);
        }
    }
    let last = last_component(name);
    name_of_component(name, last)
}

// ---------------------------------------------------------------- names of temporary files

/// The FNV-1a hash of bytes.
pub open spec fn fnv1a(b: Seq<u8>) -> u64
    decreases b.len(),
{
    if b.len() == 0 {
        0xcbf29ce484222325
    } else {
        (fnv1a(b.drop_last()) ^ b.last() as u64).wrapping_mul(0x100000001b3)
    }
}

/// A stable directory name for a target file, given its absolute path.
pub fn job_key(abs: &str) -> (key: String)
    ensures
        key@ == hex(fnv1a(encode_utf8(abs@)) as nat, 16),
{
    let b = abs.as_bytes();
    let mut hash: u64 = 0xcbf29ce484222325;
    let mut i: usize = 0;
    while i < b.len()
        invariant
            i <= b@.len(),
            hash == fnv1a(b@.take(i as int)),
        decreases b@.len() - i,
    {
        assert(b@.take(i + 1).drop_last() =~= b@.take(i as int));
        hash = hash ^ b[i] as u64;
        hash = hash.wrapping_mul(0x100000001b3);
        i = i + 1;
    }
    assert(b@.take(b@.len() as int) =~= b@);
    let mut out: Vec<char> = Vec::new();
    push_hex(&mut out, hash, 16);
    assert(out@ =~= hex(hash as nat, 16));
    string_of(out.as_slice())
}

/// The name of the temporary file of the part that starts at `from`.
pub fn pad_from(from: i64) -> (name: String)
    ensures
        name@ == padded_decimal(from as int, 19),
{
    let mut out: Vec<char> = Vec::new();
    push_padded_decimal(&mut out, from, 19);
    assert(out@ =~= padded_decimal(from as int, 19));
    string_of(out.as_slice())
}

// ---------------------------------------------------------------- laws

/// No byte of a character other than the percent sign is a percent sign.
proof fn lemma_scalar_without_percent(c: u32)
    requires
        c != 37,
        is_scalar(c),
    ensures
        forall|i: int| 0 <= i < encode_scalar(c).len() ==> #[trigger] encode_scalar(c)[i] != 37,
{
    assert(has_width_1_encoding(c) && c != 37 ==> leading_byte_width_1(c) != 37) by (bit_vector);
    assert(leading_byte_width_2(c) != 37) by (bit_vector);
    assert(leading_byte_width_3(c) != 37) by (bit_vector);
    assert(leading_byte_width_4(c) != 37) by (bit_vector);
    assert(last_continuation_byte(c) != 37) by (bit_vector);
    assert(second_last_continuation_byte(c) != 37) by (bit_vector);
    assert(third_last_continuation_byte(c) != 37) by (bit_vector);
}

proof fn lemma_text_without_percent(s: Seq<char>)
    requires
        !s.contains('%'),
    ensures
        forall|i: int| 0 <= i < encode_utf8(s).len() ==> #[trigger] encode_utf8(s)[i] != 37,
    decreases s.len(),
{
    if s.len() > 0 {
        let rest = s.drop_first();
        assert(s[0] != '%');
        assert(!rest.contains('%')) by {
            if rest.contains('%') {
                let i = choose|i: int| 0 <= i < rest.len() && rest[i] == '%';
                assert(s[i + 1] == '%');
            }
        }
        lemma_text_without_percent(rest);
        char_is_scalar(s[0]);
        char_u32_cast(s[0], s[0] as u32);
        lemma_scalar_without_percent(s[0] as u32);
        assert forall|i: int| 0 <= i < encode_utf8(s).len() implies #[trigger] encode_utf8(s)[i]
            != 37 by {
            let head = encode_scalar(s[0] as u32);
            if i < head.len() {
                assert(encode_utf8(s)[i] == head[i]);
            } else {
                assert(encode_utf8(s)[i] == encode_utf8(rest)[i - head.len()]);
            }
        }
    }
}

proof fn lemma_bytes_without_percent(b: Seq<u8>)
    requires
        forall|i: int| 0 <= i < b.len() ==> #[trigger] b[i] != 37,
    ensures
        percent_decoded(b) == b,
    decreases b.len(),
{
    if b.len() > 0 {
        assert forall|i: int| 0 <= i < b.skip(1).len() implies #[trigger] b.skip(1)[i] != 37 by {
            assert(b.skip(1)[i] == b[i + 1]);
        }
        lemma_bytes_without_percent(b.skip(1));
        assert(seq![b[0]] + b.skip(1) =~= b);
    }
}

/// A text without a percent sign is decoded to itself.
pub proof fn law_plain_text_is_kept(s: Seq<char>)
    requires
        !s.contains('%'),
    ensures
        percent_decoded(encode_utf8(s)) == encode_utf8(s),
        valid_utf8(percent_decoded(encode_utf8(s))),
        decode_utf8(percent_decoded(encode_utf8(s))) == s,
{
    lemma_text_without_percent(s);
    lemma_bytes_without_percent(encode_utf8(s));
    encode_utf8_valid_utf8(s);
    encode_utf8_decode_utf8(s);
}

/// A header of ASCII characters can be cut anywhere.
pub proof fn law_ascii_cuts_clean(v: Seq<char>)
    requires
        is_ascii_chars(v),
    ensures
        cuts_clean(trimmed(v, Trim::Space)),
{
    let t = trimmed(v, Trim::Space);
    let at = lemma_trimmed(v, Trim::Space);
    assert forall|i: int| 0 <= i < t.len() implies '\0' <= #[trigger] t[i] <= '\u{7f}' by {
        assert(t[i] == v[at + i]);
    }
    is_ascii_chars_encode_utf8(t);
    let b = encode_utf8(t);
    encode_utf8_valid_utf8(t);
    if b.len() == 5 {
        is_char_boundary_start_end_of_seq(b);
    } else if b.len() > 5 {
        assert(b[5] == t[5] as u8 && b[5] < 128);
        is_char_boundary_iff_not_is_continuation_byte(b, 5);
    }
}

/// The notation of a total: a number, or a star where it is not known.
pub open spec fn total_text(total: Option<i64>) -> Seq<char> {
    match total {
        Some(n) => signed_decimal(n as int),
        None => "*"@,
    }
}

/// The notation of an integer: not blank at the ends, and no sign but the first.
proof fn lemma_signed_decimal(i: i64)
    ensures
        signed_decimal(i as int).len() > 0,
        !is_white_space(signed_decimal(i as int)[0]),
        !is_white_space(signed_decimal(i as int).last()),
        !signed_decimal(i as int).contains('/'),
        i >= 0 ==> !signed_decimal(i as int).contains('-'),
        signed_decimal(i as int) != "*"@,
{
    reveal_strlit("*");
    let s = signed_decimal(i as int);
    let digits = decimal(if i < 0 {
        (-i) as nat
    } else {
        i as nat
    });
    lemma_decimal_reads_back(
        if i < 0 {
            (-i) as nat
        } else {
            i as nat
        },
    );
    assert(s.last() == digits.last());
    assert(digits[digits.len() - 1] == digits.last());
    assert forall|k: int| 0 <= k < s.len() implies #[trigger] s[k] != '/' && s[k] != '*' && (i >= 0
        ==> s[k] != '-') by {
        if i < 0 {
            if k > 0 {
                assert(s[k] == digits[k - 1]);
            }
        } else {
            assert(s[k] == digits[k]);
        }
    }
    assert(s[0] != '*');
}

/// A Content-Range is read as it was written, whatever its end and its total, known or
/// not. A start below zero cannot be written: its sign would be taken for the dash.
pub proof fn law_content_range_reads_back(a: i64, b: i64, total: Option<i64>)
    requires
        0 <= a,
    ensures
        content_range(
            "bytes "@ + signed_decimal(a as int) + "-"@ + signed_decimal(b as int) + "/"@
                + total_text(total),
        ) == Some(
            (
                a,
                b,
                match total {
                    Some(n) => n,
                    None => -1i64,
                },
            ),
        ),
{
    reveal_strlit("bytes ");
    reveal_strlit("bytes");
    reveal_strlit("-");
    reveal_strlit("/");
    reveal_strlit("*");
    let (da, db, dn) = (signed_decimal(a as int), signed_decimal(b as int), total_text(total));
    lemma_signed_decimal(a);
    lemma_signed_decimal(b);
    law_integer_reads_back(a);
    law_integer_reads_back(b);
    if let Some(n) = total {
        lemma_signed_decimal(n);
        law_integer_reads_back(n);
    }
    let v = "bytes "@ + da + "-"@ + db + "/"@ + dn;
    let range = da + seq!['-'] + db;
    let rest = range + seq!['/'] + dn;
    assert(v =~= "bytes"@ + seq![' '] + rest);
    assert(rest[0] == da[0] && rest.last() == dn.last());
    assert(range[0] == da[0] && range.last() == db.last());
    lemma_behind_unit(rest);
    lemma_no_slash_in_range(da, db);
    lemma_cut_in_two(range, '/', dn);
    lemma_cut_in_two(da, '-', db);
    lemma_trim_keeps(range, Trim::Space);
    lemma_trim_keeps(dn, Trim::Space);
    lemma_trim_keeps(da, Trim::Space);
    lemma_trim_keeps(db, Trim::Space);
}

/// What stands behind the unit of a range is found again.
proof fn lemma_behind_unit(rest: Seq<char>)
    requires
        rest.len() > 0,
        !is_white_space(rest[0]),
        !is_white_space(rest.last()),
    ensures
        ({
            let v = "bytes"@ + seq![' '] + rest;
            let t = trimmed(v, Trim::Space);
            &&& t == v
            &&& t.len() >= 5
            &&& t.take(5) == "bytes"@
            &&& trimmed(t.skip(5), Trim::Space) == rest
        }),
{
    reveal_strlit("bytes");
    let v = "bytes"@ + seq![' '] + rest;
    assert(v[0] == 'b' && v.last() == rest.last());
    lemma_trim_keeps(v, Trim::Space);
    assert(v.take(5) =~= "bytes"@);
    let tail = v.skip(5);
    assert(tail =~= seq![' '] + rest);
    assert(tail.drop_first() =~= rest);
    lemma_trim_keeps(rest, Trim::Space);
}

/// A range of two numbers holds no slash.
proof fn lemma_no_slash_in_range(da: Seq<char>, db: Seq<char>)
    requires
        !da.contains('/'),
        !db.contains('/'),
    ensures
        !(da + seq!['-'] + db).contains('/'),
{
    let range = da + seq!['-'] + db;
    if range.contains('/') {
        let i = choose|i: int| 0 <= i < range.len() && range[i] == '/';
        if i < da.len() {
            assert(da[i] == '/');
        } else if i > da.len() {
            assert(db[i - da.len() - 1] == '/');
        }
    }
}

/// A text is cut in two at the first occurrence of a character.
proof fn lemma_cut_in_two(head: Seq<char>, c: char, tail: Seq<char>)
    requires
        !head.contains(c),
    ensures
        ({
            let s = head + seq![c] + tail;
            &&& found(s, seq![c]) == Some(head.len() as int)
            &&& s.take(head.len() as int) == head
            &&& s.skip(head.len() as int + 1) == tail
        }),
{
    let s = head + seq![c] + tail;
    lemma_found_behind(head, c, tail);
    assert(s.take(head.len() as int) =~= head);
    assert(s.skip(head.len() as int + 1) =~= tail);
}

/// Parts that start at different bytes have differently named temporary files.
pub proof fn law_part_files_are_apart(a: i64, b: i64)
    requires
        a != b,
    ensures
        padded_decimal(a as int, 19) != padded_decimal(b as int, 19),
{
    law_padded_integer_reads_back(a, 19);
    law_padded_integer_reads_back(b, 19);
}

/// A directory name made of a path is sixteen hexadecimal digits.
pub proof fn law_key_is_hexadecimal(abs: Seq<char>)
    ensures
        ({
            let key = hex(fnv1a(encode_utf8(abs)) as nat, 16);
            &&& key.len() == 16
            &&& forall|i: int|
                0 <= i < 16 ==> ('0' <= #[trigger] key[i] <= '9' || 'a' <= key[i] <= 'f')
        }),
{
    lemma_hex_digits(fnv1a(encode_utf8(abs)) as nat, 16);
}

/// Without a backslash, all systems see the same end of a path.
pub proof fn law_slashes_separate_everywhere(s: Seq<char>)
    requires
        !s.contains('\\'),
    ensures
        path_end(s, true) == path_end(s, false),
        component_start(s, true) == component_start(s, false),
    decreases s.len(),
{
    if s.len() > 0 {
        assert(s.last() != '\\') by {
            assert(s[s.len() - 1] == s.last());
        }
        let front = s.drop_last();
        assert(!front.contains('\\')) by {
            if front.contains('\\') {
                let i = choose|i: int| 0 <= i < front.len() && front[i] == '\\';
                assert(s[i] == '\\');
            }
        }
        law_slashes_separate_everywhere(front);
        let at = component_start(s, false);
        if 0 < at < s.len() {
            let head = s.take(at);
            assert(!head.contains('\\')) by {
                if head.contains('\\') {
                    let i = choose|i: int| 0 <= i < head.len() && head[i] == '\\';
                    assert(s[i] == '\\');
                }
            }
            law_slashes_separate_everywhere(head);
        }
    }
}

/// A name that holds no separator is its own last component, whatever else it holds.
pub proof fn law_name_is_its_own_end(s: Seq<char>, backslash: bool)
    requires
        s.len() > 0,
        s != "."@,
        s != ".."@,
        forall|i: int| 0 <= i < s.len() ==> !separates(#[trigger] s[i], backslash),
    ensures
        path_end(s, backslash) == PathEnd::Name(s),
{
    lemma_no_separator(s, backslash);
    assert(s.skip(0) =~= s);
}

proof fn lemma_no_separator(s: Seq<char>, backslash: bool)
    requires
        forall|i: int| 0 <= i < s.len() ==> !separates(#[trigger] s[i], backslash),
    ensures
        component_start(s, backslash) == 0,
    decreases s.len(),
{
    if s.len() > 0 {
        let front = s.drop_last();
        assert forall|i: int| 0 <= i < front.len() implies !separates(
            #[trigger] front[i],
            backslash,
        ) by {
            assert(front[i] == s[i]);
        }
        assert(s[s.len() - 1] == s.last());
        lemma_no_separator(front, backslash);
    }
}

/// The name behind the last separator is the end of a path, and so it stays when a
/// separator follows, or a separator and a full stop.
pub proof fn law_last_name_is_the_end(s: Seq<char>, sep: char, c: Seq<char>, backslash: bool)
    requires
        separates(sep, backslash),
        c.len() > 0,
        c != "."@,
        c != ".."@,
        forall|i: int| 0 <= i < c.len() ==> !separates(#[trigger] c[i], backslash),
    ensures
        path_end(s + seq![sep] + c, backslash) == PathEnd::Name(c),
        path_end((s + seq![sep] + c).push(sep), backslash) == PathEnd::Name(c),
        path_end((s + seq![sep] + c).push(sep).push('.'), backslash) == PathEnd::Name(c),
{
    reveal_strlit(".");
    let t = s + seq![sep] + c;
    lemma_start_behind(s + seq![sep], c, backslash);
    assert(t.skip(s.len() as int + 1) =~= c);
    assert(t.last() == c[c.len() - 1]);
    let u = t.push(sep);
    assert(u.drop_last() =~= t);
    let w = u.push('.');
    let dot = seq!['.'];
    assert(w =~= t + seq![sep] + dot);
    assert((t + seq![sep]).last() == sep);
    lemma_start_behind(t + seq![sep], dot, backslash);
    assert(w.skip(t.len() as int + 1) =~= "."@);
    assert(w.take(t.len() as int + 1) =~= u);
    assert(dot =~= "."@);
    reveal_strlit("..");
    assert(dot.len() != ".."@.len());
}

proof fn lemma_start_behind(head: Seq<char>, c: Seq<char>, backslash: bool)
    requires
        head.len() > 0,
        separates(head.last(), backslash),
        forall|i: int| 0 <= i < c.len() ==> !separates(#[trigger] c[i], backslash),
    ensures
        component_start(head + c, backslash) == head.len(),
    decreases c.len(),
{
    let s = head + c;
    if c.len() == 0 {
        assert(s =~= head);
    } else {
        assert(s.last() == c[c.len() - 1]);
        assert(s.drop_last() =~= head + c.drop_last());
        assert forall|i: int| 0 <= i < c.drop_last().len() implies !separates(
            #[trigger] c.drop_last()[i],
            backslash,
        ) by {
            assert(c.drop_last()[i] == c[i]);
        }
        lemma_start_behind(head, c.drop_last(), backslash);
    }
}

/// A clean name stays inside its directory: it is not empty, holds no character that
/// is forbidden or separates, and is neither the directory itself nor the one above.
pub proof fn law_clean_name_is_a_component(base: Seq<char>)
    ensures
        is_component(clean_name(base)),
        forall|i: int|
            0 <= i < clean_name(base).len() ==> !is_forbidden(#[trigger] clean_name(base)[i]),
{
    reveal_strlit("download.bin");
    reveal_strlit(".");
    reveal_strlit("..");
    let r = replaced(base);
    let at = lemma_trimmed(r, Trim::BlankOrStop);
    let s = trimmed(r, Trim::BlankOrStop);
    if s.len() > 0 {
        assert forall|i: int| 0 <= i < s.len() implies !is_forbidden(#[trigger] s[i]) by {
            assert(s[i] == r[at + i]);
        }
        assert(s[0] != '.');
    }
    let c = clean_name(base);
    assert(c[0] != '.' && "."@[0] == '.' && ".."@[0] == '.');
    assert forall|i: int| 0 <= i < c.len() implies #[trigger] c[i] != '/' && c[i] != '\\' && c[i]
        != ':' by {
        assert(!is_forbidden(c[i]));
    }
}

/// Cleaning a clean name changes nothing.
pub proof fn law_cleaning_settles(base: Seq<char>)
    ensures
        clean_name(clean_name(base)) == clean_name(base),
{
    law_clean_name_is_a_component(base);
    let s = clean_name(base);
    assert(replaced(s) =~= s);
    reveal_strlit("download.bin");
    let t = lemma_trimmed(replaced(base), Trim::BlankOrStop);
    lemma_trim_keeps(s, Trim::BlankOrStop);
}

// ---------------------------------------------------------------- laws on names

/// Only nine characters are replaced, each by an underscore; every other one is kept at
/// its place.
pub proof fn law_only_nine_characters_are_replaced(s: Seq<char>, i: int)
    requires
        0 <= i < s.len(),
    ensures
        replaced(s).len() == s.len(),
        s[i] == '\\' || s[i] == '/' || s[i] == ':' || s[i] == '*' || s[i] == '?' || s[i] == '"'
            || s[i] == '<' || s[i] == '>' || s[i] == '|' ==> replaced(s)[i] == '_',
        s[i] != '\\' && s[i] != '/' && s[i] != ':' && s[i] != '*' && s[i] != '?' && s[i] != '"'
            && s[i] != '<' && s[i] != '>' && s[i] != '|' ==> replaced(s)[i] == s[i],
{
}

/// A text that holds none of the nine characters, and neither begins nor ends with a blank
/// or a full stop, is its own clean name, whatever else it holds.
pub proof fn law_clean_name_keeps_what_is_allowed(s: Seq<char>)
    requires
        s.len() > 0,
        forall|i: int|
            0 <= i < s.len() ==> (#[trigger] s[i]) != '\\' && s[i] != '/' && s[i] != ':' && s[i]
                != '*' && s[i] != '?' && s[i] != '"' && s[i] != '<' && s[i] != '>' && s[i] != '|',
        s[0] != ' ' && s[0] != '.',
        s.last() != ' ' && s.last() != '.',
    ensures
        clean_name(s) == s,
{
    assert(replaced(s) =~= s);
    lemma_trim_keeps(s, Trim::BlankOrStop);
}

/// Blanks and full stops at the ends are taken off, and nothing else; what is left of the
/// text is cleaned character by character, and a text of which nothing is left gets a
/// stopgap.
pub proof fn law_clean_name_takes_off_the_ends(head: Seq<char>, s: Seq<char>, tail: Seq<char>)
    requires
        forall|i: int| 0 <= i < head.len() ==> (#[trigger] head[i]) == ' ' || head[i] == '.',
        forall|i: int| 0 <= i < tail.len() ==> (#[trigger] tail[i]) == ' ' || tail[i] == '.',
        s.len() > 0 ==> s[0] != ' ' && s[0] != '.' && s.last() != ' ' && s.last() != '.',
    ensures
        s.len() > 0 ==> clean_name(head + s + tail) == replaced(s),
        s.len() == 0 ==> clean_name(head + s + tail) == "download.bin"@,
{
    let (h, m, t) = (replaced(head), replaced(s), replaced(tail));
    assert(replaced(head + s + tail) =~= h + m + t);
    assert forall|i: int| 0 <= i < h.len() implies Trim::BlankOrStop.takes(#[trigger] h[i]) by {
        assert(head[i] == ' ' || head[i] == '.');
    }
    assert forall|i: int| 0 <= i < t.len() implies Trim::BlankOrStop.takes(#[trigger] t[i]) by {
        assert(tail[i] == ' ' || tail[i] == '.');
    }
    if s.len() > 0 {
        assert(m.last() == (if is_forbidden(s.last()) {
            '_'
        } else {
            s.last()
        }));
    }
    law_trim_takes_the_ends(h, m, t, Trim::BlankOrStop);
}

/// Whatever the system: of a path with slashes, the file name is made of what stands
/// behind the last one.
pub proof fn law_last_component_names_the_file(dir: Seq<char>, c: Seq<char>, r: Seq<char>)
    requires
        c.len() > 0,
        c != "."@,
        c != ".."@,
        !(dir + seq!['/'] + c).contains('\\'),
        !c.contains('/'),
        dir.len() > 1 ==> dir[1] != ':' && !(dir[0] == '/' && dir[1] == '/'),
        dir.len() == 1 ==> dir[0] != '/',
        dir.len() == 0 ==> c[0] != ':',
        is_sanitized(dir + seq!['/'] + c, r),
    ensures
        r == clean_name(c),
{
    let name = dir + seq!['/'] + c;
    assert forall|i: int| 0 <= i < c.len() implies !separates(#[trigger] c[i], true) by {
        assert(name[dir.len() + 1 + i] == c[i]);
        if c[i] == '/' {
            assert(c.contains('/'));
        }
    }
    assert forall|i: int| 0 <= i < c.len() implies !separates(#[trigger] c[i], false) by {
        assert(!separates(c[i], true));
    }
    law_last_name_is_the_end(dir, '/', c, false);
    law_last_name_is_the_end(dir, '/', c, true);
    assert(name[dir.len() as int] == '/');
    if dir.len() == 0 {
        assert(name[1] == c[0]);
        assert(c[0] != '/') by {
            if c[0] == '/' {
                assert(c.contains('/'));
            }
        }
        assert(name[1] != '\\');
    } else if dir.len() == 1 {
        assert(name[0] == dir[0] && name[1] == '/');
        assert(name[0] != '\\') by {
            assert(name.contains(name[0]));
        }
    } else {
        assert(name[0] == dir[0] && name[1] == dir[1]);
        assert(name[0] != '\\' && name[1] != '\\') by {
            assert(name.contains(name[0]));
            assert(name.contains(name[1]));
        }
    }
}

/// A name without separators and without what could be a drive is cleaned as it stands.
pub proof fn law_plain_name_is_cleaned(name: Seq<char>, r: Seq<char>)
    requires
        forall|i: int| 0 <= i < name.len() ==> (#[trigger] name[i]) != '/' && name[i] != '\\',
        name.len() > 1 ==> name[1] != ':',
        is_sanitized(name, r),
    ensures
        r == clean_name(name),
{
    assert(!begins_like_server(name));
    if name.len() > 0 {
        lemma_no_separator(name, false);
        lemma_no_separator(name, true);
        assert(name.skip(0) =~= name);
    }
}

/// A path that ends in the directory above, or in nothing but separators, has no name.
pub proof fn law_nameless_paths(s: Seq<char>, sep: char, backslash: bool)
    requires
        separates(sep, backslash),
    ensures
        path_end(Seq::empty(), backslash) is Nameless,
        path_end("."@, backslash) is Nameless,
        path_end(".."@, backslash) is Nameless,
        path_end((s + seq![sep]) + ".."@, backslash) is Nameless,
        path_end(s.push(sep), backslash) == path_end(s, backslash),
{
    reveal_strlit(".");
    reveal_strlit("..");
    assert(s.push(sep).drop_last() =~= s);
    lemma_no_separator("."@, backslash);
    lemma_no_separator(".."@, backslash);
    assert("."@.skip(0) =~= "."@);
    assert(".."@.skip(0) =~= ".."@);
    let t = (s + seq![sep]) + ".."@;
    assert((s + seq![sep]).last() == sep);
    lemma_start_behind(s + seq![sep], ".."@, backslash);
    assert(t.skip(s.len() as int + 1) =~= ".."@);
    assert(t.last() == '.');
}

// ---------------------------------------------------------------- laws on what servers write

/// A percent sign with two hexadecimal digits stands for one byte; a percent sign without
/// them, and every other byte, stands for itself.
pub proof fn law_percent_sequences(h: u8, l: u8, x: u8, y: u8, rest: Seq<u8>)
    ensures
        hex_value(h) is Some && hex_value(l) is Some ==> percent_decoded(seq![37u8, h, l] + rest)
            == seq![(hex_value(h)->0 * 16 + hex_value(l)->0) as u8] + percent_decoded(rest),
        x != 37 ==> percent_decoded(seq![x] + rest) == seq![x] + percent_decoded(rest),
        rest.len() < 2 ==> percent_decoded(seq![37u8] + rest) == seq![37u8] + percent_decoded(rest),
        hex_value(x) is None || hex_value(y) is None ==> percent_decoded(seq![37u8, x, y] + rest)
            == seq![37u8] + percent_decoded(seq![x, y] + rest),
        percent_decoded(Seq::empty()) == Seq::<u8>::empty(),
{
    assert((seq![37u8, h, l] + rest).skip(3) =~= rest);
    assert((seq![x] + rest).skip(1) =~= rest);
    assert((seq![37u8] + rest).skip(1) =~= rest);
    assert((seq![37u8, x, y] + rest).skip(1) =~= seq![x, y] + rest);
}

/// A text is decoded to whatever text its bytes, with the percent sequences replaced, are
/// the encoding of.
pub proof fn law_decoding_gives_the_text(s: Seq<char>, t: Seq<char>)
    requires
        percent_decoded(encode_utf8(s)) == encode_utf8(t),
    ensures
        decoded(s) == t,
{
    encode_utf8_valid_utf8(t);
    encode_utf8_decode_utf8(t);
}

/// The name of an address is its last path segment, decoded; an address without segments,
/// or whose last one is empty or a single full stop, gives none.
pub proof fn law_last_segment_names_the_file(v: Seq<Seq<char>>)
    ensures
        segment_name(None) == Seq::<char>::empty(),
        v.len() == 0 ==> segment_name(Some(v)) == Seq::<char>::empty(),
        v.len() > 0 && (v.last().len() == 0 || v.last() == seq!['.']) ==> segment_name(Some(v))
            == Seq::<char>::empty(),
        v.len() > 0 && v.last().len() > 0 && v.last() != seq!['.'] && v.last() != seq!['/']
            ==> segment_name(Some(v)) == decoded(v.last()),
        v.len() > 0 && v.last().len() > 1 && !v.last().contains('%') ==> segment_name(Some(v))
            == v.last(),
{
    reveal_strlit(".");
    reveal_strlit("/");
    assert("."@ =~= seq!['.']);
    assert("/"@ =~= seq!['/']);
    if v.len() > 0 && v.last().len() > 1 && !v.last().contains('%') {
        law_plain_text_is_kept(v.last());
        law_decoding_gives_the_text(v.last(), v.last());
    }
}

/// The key of a parameter stands first behind a text that does not hold it.
proof fn lemma_key_is_found(head: Seq<char>, key: Seq<char>, tail: Seq<char>, low: Seq<char>)
    requires
        lower(key) == low,
        forall|j: int|
            0 <= j < head.len() ==> #[trigger] lower(head + key + tail).subrange(j, j + low.len())
                != low,
    ensures
        found(lower(head + key + tail), low) == Some(head.len() as int),
{
    let hay = lower(head + key + tail);
    let n = head.len() as int;
    assert(low.len() == key.len());
    assert(hay.subrange(n, n + low.len()) =~= low);
    lemma_found_from(hay, low, 0);
    assert(occurs_at(hay, low, n));
    match found(hay, low) {
        Some(k) => {
            if k < n {
                assert(hay.subrange(k, k + low.len()) != low);
            }
        },
        None => {},
    }
}

/// What stands before the first semicolon.
proof fn lemma_cut_before(s: Seq<char>, end: Seq<char>)
    requires
        !s.contains(';'),
        end.len() > 0 ==> end[0] == ';',
    ensures
        cut_at(s + end, ';') == s,
{
    if end.len() > 0 {
        assert(s + end =~= s + seq![';'] + end.drop_first());
        lemma_cut_in_two(s, ';', end.drop_first());
    } else {
        assert(s + end =~= s);
        lemma_found_from(s, seq![';'], 0);
        if let Some(k) = found(s, seq![';']) {
            assert(s.subrange(k, k + 1)[0] == ';');
            assert(s[k] == ';');
        }
    }
}

/// A text made of others holds a character only if one of them does.
proof fn lemma_none_holds(a: Seq<char>, b: Seq<char>, d: Seq<char>, c: char)
    requires
        !a.contains(c),
        !b.contains(c),
        !d.contains(c),
    ensures
        !(a + b + d).contains(c),
{
    let s = a + b + d;
    if s.contains(c) {
        let i = choose|i: int| 0 <= i < s.len() && s[i] == c;
        if i < a.len() {
            assert(a[i] == c);
        } else if i < a.len() + b.len() {
            assert(b[i - a.len()] == c);
        } else {
            assert(d[i - a.len() - b.len()] == c);
        }
    }
}

/// The value of a parameter: what stands behind its key, up to the next semicolon, without
/// blanks around it.
proof fn lemma_parameter_value(
    cd: Seq<char>,
    at: int,
    left: Seq<char>,
    value: Seq<char>,
    right: Seq<char>,
    end: Seq<char>,
)
    requires
        0 <= at <= cd.len(),
        cd.skip(at) == left + value + right + end,
        forall|i: int| 0 <= i < left.len() ==> is_white_space(#[trigger] left[i]),
        forall|i: int| 0 <= i < right.len() ==> is_white_space(#[trigger] right[i]),
        value.len() > 0,
        !is_white_space(value[0]),
        !is_white_space(value.last()),
        !value.contains(';'),
        end.len() > 0 ==> end[0] == ';',
    ensures
        trimmed(cut_at(cd.skip(at), ';'), Trim::Space) == value,
{
    assert(!left.contains(';')) by {
        if left.contains(';') {
            let i = choose|i: int| 0 <= i < left.len() && left[i] == ';';
            assert(is_white_space(left[i]));
        }
    }
    assert(!right.contains(';')) by {
        if right.contains(';') {
            let i = choose|i: int| 0 <= i < right.len() && right[i] == ';';
            assert(is_white_space(right[i]));
        }
    }
    lemma_none_holds(left, value, right, ';');
    lemma_cut_before(left + value + right, end);
    law_trim_takes_the_ends(left, value, right, Trim::Space);
}

/// A plain parameter gives what stands behind its equals sign, up to the next semicolon,
/// without blanks and quotes around it; the key is read in capitals or not. It counts
/// where there is no extended one.
pub proof fn law_plain_parameter_gives_the_name(
    head: Seq<char>,
    key: Seq<char>,
    left: Seq<char>,
    open: Seq<char>,
    name: Seq<char>,
    close: Seq<char>,
    right: Seq<char>,
    end: Seq<char>,
    cd: Seq<char>,
)
    requires
        lower(key) == "filename="@,
        cd == head + key + (left + (open + name + close) + right + end),
        forall|j: int|
            0 <= j < head.len() ==> #[trigger] lower(cd).subrange(j, j + 9) != "filename="@,
        extended_name(cd) is None,
        forall|i: int| 0 <= i < left.len() ==> is_white_space(#[trigger] left[i]),
        forall|i: int| 0 <= i < right.len() ==> is_white_space(#[trigger] right[i]),
        forall|i: int| 0 <= i < open.len() ==> #[trigger] open[i] == '"',
        forall|i: int| 0 <= i < close.len() ==> #[trigger] close[i] == '"',
        name.len() > 0,
        !name.contains(';'),
        name[0] != '"' && (open.len() == 0 ==> !is_white_space(name[0])),
        name.last() != '"' && (close.len() == 0 ==> !is_white_space(name.last())),
        end.len() > 0 ==> end[0] == ';',
    ensures
        disposition_name(cd) == name,
{
    reveal_strlit("filename=");
    let value = open + name + close;
    let tail = left + value + right + end;
    lemma_key_is_found(head, key, tail, "filename="@);
    assert(lower(key).len() == key.len());
    assert(cd.skip(head.len() as int + 9) =~= tail);
    assert(!open.contains(';') && !close.contains(';'));
    lemma_none_holds(open, name, close, ';');
    assert(value[0] == (if open.len() > 0 {
        open[0]
    } else {
        name[0]
    }));
    assert(value.last() == (if close.len() > 0 {
        close[close.len() - 1]
    } else {
        name.last()
    }));
    lemma_parameter_value(cd, head.len() as int + 9, left, value, right, end);
    law_trim_takes_the_ends(open, name, close, Trim::Quote);
}

/// An extended parameter gives what stands behind the two quotes, up to the next
/// semicolon, without blanks around it, decoded, whatever a plain parameter says.
pub proof fn law_extended_parameter_gives_the_name(
    head: Seq<char>,
    key: Seq<char>,
    left: Seq<char>,
    charset: Seq<char>,
    raw: Seq<char>,
    right: Seq<char>,
    end: Seq<char>,
    cd: Seq<char>,
)
    requires
        lower(key) == "filename*="@,
        cd == head + key + (left + (charset + "''"@ + raw) + right + end),
        forall|j: int|
            0 <= j < head.len() ==> #[trigger] lower(cd).subrange(j, j + 10) != "filename*="@,
        forall|i: int| 0 <= i < left.len() ==> is_white_space(#[trigger] left[i]),
        forall|i: int| 0 <= i < right.len() ==> is_white_space(#[trigger] right[i]),
        !charset.contains('\''),
        !charset.contains(';'),
        charset.len() > 0 ==> !is_white_space(charset[0]),
        raw.len() > 0,
        !raw.contains(';'),
        !is_white_space(raw.last()),
        end.len() > 0 ==> end[0] == ';',
    ensures
        disposition_name(cd) == decoded(raw),
{
    reveal_strlit("filename*=");
    reveal_strlit("''");
    let value = charset + "''"@ + raw;
    let tail = left + value + right + end;
    lemma_key_is_found(head, key, tail, "filename*="@);
    assert(lower(key).len() == key.len());
    assert(cd.skip(head.len() as int + 10) =~= tail);
    assert(!"''"@.contains(';'));
    lemma_none_holds(charset, "''"@, raw, ';');
    assert(value[0] == (if charset.len() > 0 {
        charset[0]
    } else {
        '\''
    }));
    assert(value.last() == raw.last());
    lemma_parameter_value(cd, head.len() as int + 10, left, value, right, end);
    lemma_quotes_are_found(charset, raw);
}

/// The two quotes are found behind a text without a quote.
proof fn lemma_quotes_are_found(charset: Seq<char>, raw: Seq<char>)
    requires
        !charset.contains('\''),
    ensures
        found(charset + "''"@ + raw, "''"@) == Some(charset.len() as int),
        (charset + "''"@ + raw).skip(charset.len() as int + 2) == raw,
{
    reveal_strlit("''");
    let value = charset + "''"@ + raw;
    let n = charset.len() as int;
    assert(value.subrange(n, n + 2) =~= "''"@);
    assert(occurs_at(value, "''"@, n));
    lemma_found_from(value, "''"@, 0);
    match found(value, "''"@) {
        Some(k) => {
            if k < n {
                assert(value.subrange(k, k + 2)[0] == '\'');
                assert(charset[k] == '\'');
            }
        },
        None => {},
    }
    assert(value.skip(n + 2) =~= raw);
}

/// An extended parameter counts only with its key and the two quotes behind it.
pub proof fn law_extended_parameter_needs_its_quotes(cd: Seq<char>)
    ensures
        found(lower(cd), "filename*="@) is None ==> extended_name(cd) is None,
        (forall|i: int| 0 <= i < cd.len() - 1 ==> !(#[trigger] cd[i] == '\'' && cd[i + 1] == '\''))
            ==> extended_name(cd) is None,
{
    reveal_strlit("filename*=");
    reveal_strlit("''");
    if extended_name(cd) is Some {
        let i = found(lower(cd), "filename*="@)->0;
        lemma_found_from(lower(cd), "filename*="@, 0);
        let behind = cd.skip(i + 10);
        let value = cut_at(behind, ';');
        lemma_found_from(behind, seq![';'], 0);
        let at = lemma_trimmed(value, Trim::Space);
        let t = trimmed(value, Trim::Space);
        lemma_found_from(t, "''"@, 0);
        let p = found(t, "''"@)->0;
        assert(t.subrange(p, p + 2)[0] == '\'' && t.subrange(p, p + 2)[1] == '\'');
        assert(cd[i + 10 + at + p] == t[p] && cd[i + 10 + at + p + 1] == t[p + 1]);
    }
}

/// A header without either parameter gives no name.
pub proof fn law_no_parameter_gives_no_name(cd: Seq<char>)
    requires
        found(lower(cd), "filename="@) is None,
        found(lower(cd), "filename*="@) is None,
    ensures
        disposition_name(cd) == Seq::<char>::empty(),
{
}

/// A Content-Range is read only if it has the unit of bytes, in capitals or not, and
/// behind it a first byte, a dash, a last byte, a slash and a total, each of which can be
/// read; blanks around them do not matter.
pub proof fn law_content_range_has_all_its_pieces(v: Seq<char>) -> (p: (
    Seq<char>,
    Seq<char>,
    Seq<char>,
))
    ensures
        content_range(v) matches Some((a, b, n)) ==> {
            let t = trimmed(v, Trim::Space);
            let rest = trimmed(t.skip(5), Trim::Space);
            &&& t.len() >= 5
            &&& lower(t.take(5)) == seq!['b', 'y', 't', 'e', 's']
            &&& rest.len() > p.0.len() + p.1.len() + 1
            &&& rest.skip(rest.len() - p.2.len()) == p.2
            &&& rest[rest.len() - p.2.len() - 1] == '/'
            &&& !p.0.contains('-') && !p.0.contains('/') && !p.1.contains('/')
            &&& trimmed(rest.take(rest.len() - p.2.len() - 1), Trim::Space) == p.0 + seq!['-']
                + p.1
            &&& integer(trimmed(p.0, Trim::Space)) == Some(a)
            &&& integer(trimmed(p.1, Trim::Space)) == Some(b)
            &&& if trimmed(p.2, Trim::Space) == seq!['*'] {
                n == -1
            } else {
                integer(trimmed(p.2, Trim::Space)) == Some(n)
            }
        },
{
    reveal_strlit("bytes");
    reveal_strlit("*");
    assert("*"@ =~= seq!['*']);
    assert(lower("bytes"@) =~= seq!['b', 'y', 't', 'e', 's']);
    if content_range(v) is Some {
        let t = trimmed(v, Trim::Space);
        let rest = trimmed(t.skip(5), Trim::Space);
        let slash = found(rest, seq!['/'])->0;
        lemma_found_from(rest, seq!['/'], 0);
        assert(rest.subrange(slash, slash + 1)[0] == '/');
        let total = rest.skip(slash + 1);
        let head = rest.take(slash);
        let range = trimmed(head, Trim::Space);
        let at = lemma_trimmed(head, Trim::Space);
        let dash = found(range, seq!['-'])->0;
        lemma_found_from(range, seq!['-'], 0);
        assert(range.subrange(dash, dash + 1)[0] == '-');
        let (first, last) = (range.take(dash), range.skip(dash + 1));
        assert(range =~= first + seq!['-'] + last);
        assert(rest.skip(rest.len() - total.len()) =~= total);
        assert forall|i: int| 0 <= i < range.len() implies range[i] != '/' by {
            assert(range[i] == rest[at + i]);
            if rest[at + i] == '/' {
                assert(rest.subrange(at + i, at + i + 1) =~= seq!['/']);
                assert(occurs_at(rest, seq!['/'], at + i));
            }
        }
        assert(!first.contains('/')) by {
            if first.contains('/') {
                let i = choose|i: int| 0 <= i < first.len() && first[i] == '/';
                assert(range[i] == '/');
            }
        }
        assert(!last.contains('/')) by {
            if last.contains('/') {
                let i = choose|i: int| 0 <= i < last.len() && last[i] == '/';
                assert(range[dash + 1 + i] == '/');
            }
        }
        assert(!first.contains('-')) by {
            if first.contains('-') {
                let i = choose|i: int| 0 <= i < first.len() && first[i] == '-';
                assert(range.subrange(i, i + 1) =~= seq!['-']);
                assert(occurs_at(range, seq!['-'], i));
            }
        }
        (first, last, total)
    } else {
        (Seq::empty(), Seq::empty(), Seq::empty())
    }
}

// ---------------------------------------------------------------- laws on temporary files

/// The hash takes in one byte after the other: it is mixed in, and the result is
/// multiplied, without what does not fit into 64 bits.
pub proof fn law_hash_takes_every_byte(b: Seq<u8>, x: u8)
    ensures
        fnv1a(Seq::empty()) == 14695981039346656037,
        fnv1a(b.push(x)) as int == ((fnv1a(b) ^ x as u64) as int * 1099511628211)
            % 0x1_0000_0000_0000_0000,
{
    assert(b.push(x).drop_last() =~= b);
}

/// The temporary file of a part is named by its start, in at least nineteen digits.
pub proof fn law_part_file_is_named_by_its_start(from: i64)
    requires
        from >= 0,
    ensures
        padded_decimal(from as int, 19).len() == 19,
        integer(padded_decimal(from as int, 19)) == Some(from),
        forall|i: int|
            0 <= i < 19 ==> '0' <= #[trigger] padded_decimal(from as int, 19)[i] <= '9',
{
    law_padded_integer_reads_back(from, 19);
    lemma_decimal_reads_back(from as nat);
    let s = decimal(from as nat);
    lemma_at_most_nineteen(from as nat);
    let p = padded_decimal(from as int, 19);
    assert forall|i: int| 0 <= i < 19 implies '0' <= #[trigger] p[i] <= '9' by {
        if i >= 19 - s.len() {
            assert(p[i] == s[i - (19 - s.len())]);
        }
    }
}

proof fn lemma_at_most_nineteen(n: nat)
    requires
        n <= i64::MAX,
    ensures
        decimal(n).len() <= 19,
{
    reveal_with_fuel(decimal, 20);
}

/// A Content-Range is read whatever the case of its unit, and whatever blanks stand around
/// its pieces.
pub proof fn law_blanks_in_a_content_range(
    unit: Seq<char>,
    w: Seq<Seq<char>>,
    f: Seq<char>,
    l: Seq<char>,
    t: Seq<char>,
    v: Seq<char>,
)
    requires
        unit.len() == 5,
        lower(unit) == lower("bytes"@),
        w.len() == 7,
        forall|k: int, i: int|
            0 <= k < 7 && 0 <= i < w[k].len() ==> is_white_space(#[trigger] w[k][i]),
        v == w[0] + (unit + (w[1] + (w[2] + (f + w[3] + seq!['-'] + (w[4] + l)) + w[5] + seq!['/']
            + (w[6] + t)))),
        integer(f) is Some && integer(l) is Some && total_size(t) is Some,
        !f.contains('-') && !f.contains('/') && !l.contains('/'),
        !is_white_space(unit[0]),
        f.len() > 0 && !is_white_space(f[0]) && !is_white_space(f.last()),
        l.len() > 0 && !is_white_space(l[0]) && !is_white_space(l.last()),
        t.len() > 0 && !is_white_space(t[0]) && !is_white_space(t.last()),
    ensures
        content_range(v) == Some((integer(f)->0, integer(l)->0, total_size(t)->0)),
{
    let none = Seq::<char>::empty();
    assert forall|k: int, i: int| 0 <= k < 7 && 0 <= i < w[k].len() implies Trim::Space.takes(
        #[trigger] w[k][i],
    ) by {}
    let range = f + w[3] + seq!['-'] + (w[4] + l);
    let head = w[2] + range + w[5];
    let rest = head + seq!['/'] + (w[6] + t);
    let body = unit + (w[1] + rest);
    assert(rest.last() == t.last() && body.last() == t.last() && body[0] == unit[0]);
    // the whole
    assert(v =~= w[0] + body + none);
    law_trim_takes_the_ends(w[0], body, none, Trim::Space);
    assert(body.take(5) =~= unit);
    assert(body.skip(5) =~= w[1] + rest);
    // behind the unit
    let front = w[1] + w[2];
    let core = range + w[5] + seq!['/'] + (w[6] + t);
    assert forall|i: int| 0 <= i < front.len() implies Trim::Space.takes(#[trigger] front[i]) by {
        if i < w[1].len() {
            assert(front[i] == w[1][i]);
        } else {
            assert(front[i] == w[2][i - w[1].len()]);
        }
    }
    assert(w[1] + rest =~= front + core + none);
    assert(core[0] == f[0] && core.last() == t.last());
    law_trim_takes_the_ends(front, core, none, Trim::Space);
    // around the slash
    lemma_blanks_hold_none(w[3], '/');
    lemma_blanks_hold_none(w[4], '/');
    lemma_blanks_hold_none(w[5], '/');
    lemma_blanks_hold_none(w[3], '-');
    lemma_none_holds(f, w[3], seq!['-'], '/');
    lemma_none_holds(w[4], l, none, '/');
    assert(w[4] + l + none =~= w[4] + l);
    assert(f + w[3] + seq!['-'] + (w[4] + l) + w[5] =~= (f + w[3] + seq!['-']) + (w[4] + l) + w[5]);
    lemma_none_holds(f + w[3] + seq!['-'], w[4] + l, w[5], '/');
    assert(core =~= (range + w[5]) + seq!['/'] + (w[6] + t));
    lemma_cut_in_two(range + w[5], '/', w[6] + t);
    assert(range[0] == f[0] && range.last() == l.last());
    assert(range + w[5] =~= none + range + w[5]);
    law_trim_takes_the_ends(none, range, w[5], Trim::Space);
    assert(w[6] + t =~= w[6] + t + none);
    law_trim_takes_the_ends(w[6], t, none, Trim::Space);
    // around the dash
    lemma_none_holds(f, w[3], none, '-');
    assert(f + w[3] + none =~= f + w[3]);
    lemma_cut_in_two(f + w[3], '-', w[4] + l);
    assert(f + w[3] =~= none + f + w[3]);
    law_trim_takes_the_ends(none, f, w[3], Trim::Space);
    assert(w[4] + l =~= w[4] + l + none);
    law_trim_takes_the_ends(w[4], l, none, Trim::Space);
}

proof fn lemma_blanks_hold_none(w: Seq<char>, c: char)
    requires
        forall|i: int| 0 <= i < w.len() ==> is_white_space(#[trigger] w[i]),
        !is_white_space(c),
    ensures
        !w.contains(c),
{
    if w.contains(c) {
        let i = choose|i: int| 0 <= i < w.len() && w[i] == c;
        assert(is_white_space(w[i]));
    }
}

/// A total is a number, or a star for one that is not known.
pub proof fn law_totals(s: Seq<char>)
    ensures
        total_size(seq!['*']) == Some(-1i64),
        s != seq!['*'] ==> total_size(s) == integer(s),
{
    reveal_strlit("*");
    assert("*"@ =~= seq!['*']);
}

/// A path with a name at its end is cleaned to that name, and one without to itself.
pub proof fn law_end_of_a_path_is_cleaned(name: Seq<char>, c: Seq<char>, r: Seq<char>)
    ensures
        is_clean_end(name, PathEnd::Name(c), r) <==> r == clean_name(c),
        is_clean_end(name, PathEnd::Nameless, r) <==> r == clean_name(name),
{
}

} // verus!
