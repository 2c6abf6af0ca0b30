//! What the local preview answers: how a request is routed, the file its
//! target asks for (URL percent-decoding included), the content type of a
//! file by its extension, and the head of the response.

use vstd::prelude::*;
use vstd::utf8::{
    char_is_scalar, char_u32_cast, decode_utf8, encode_scalar, encode_utf8, has_width_1_encoding,
    is_leading_byte_width_1, is_scalar, last_continuation_byte, leading_byte_width_1,
    leading_byte_width_2, leading_byte_width_3, leading_byte_width_4,
    second_last_continuation_byte, third_last_continuation_byte, valid_utf8,
};

use crate::lines::strip_cr;
use crate::message::owned;
use crate::path::{dot_end, extension_model, file_name, file_name_model};
use crate::text::{
    chars_of, copy_range, decimal, decimal_string, is_whitespace, is_ws, push_char, push_str,
    string_of,
};

verus! {

/// The value of an ASCII hexadecimal digit.
pub open spec fn hex_value(b: u8) -> Option<u8> {
    if 0x30 <= b && b <= 0x39 {
        Some((b - 0x30) as u8)
    } else if 0x61 <= b && b <= 0x66 {
        Some((b - 0x61 + 10) as u8)
    } else if 0x41 <= b && b <= 0x46 {
        Some((b - 0x41 + 10) as u8)
    } else {
        None
    }
}

/// The byte that the two characters after a `%` spell in base 16, as
/// `u8::from_str_radix` reads them: two hex digits, or `+` and one hex digit.
pub open spec fn hex_pair(b1: u8, b2: u8) -> Option<u8> {
    match (hex_value(b1), hex_value(b2)) {
        (Some(h), Some(l)) => Some((h * 16 + l) as u8),
        (None, Some(l)) => if b1 == 0x2b {
            Some(l)
        } else {
            None
        },
        _ => None,
    }
}

/// The bytes of `s[i..]` with every `%XX` replaced by the byte it spells,
/// after `acc`; `None` when a `%` is not followed by two characters that spell
/// a byte.
pub open spec fn unescape_from(s: Seq<u8>, i: int, acc: Seq<u8>) -> Option<Seq<u8>>
    decreases s.len() - i,
{
    if i < 0 || i >= s.len() {
        Some(acc)
    } else if s[i] == 0x25 {
        if i + 2 >= s.len() {
            None
        } else {
            match hex_pair(s[i + 1], s[i + 2]) {
                None => None,
                Some(b) => unescape_from(s, i + 3, acc.push(b)),
            }
        }
    } else {
        unescape_from(s, i + 1, acc.push(s[i]))
    }
}

/// A URL path percent-decoded: `None` when an escape is malformed or the bytes
/// are not UTF-8.
pub open spec fn percent_decode_model(target: Seq<char>) -> Option<Seq<char>> {
    match unescape_from(encode_utf8(target), 0, seq![]) {
        None => None,
        Some(b) => if valid_utf8(b) {
            Some(decode_utf8(b))
        } else {
            None
        },
    }
}

/// The ASCII byte of hexadecimal digit `n`: in capitals when `upper`, else
/// in small letters.
pub open spec fn hex_digit(n: u8, upper: bool) -> u8 {
    if n < 10 {
        (0x30 + n) as u8
    } else if upper {
        (0x41 + n - 10) as u8
    } else {
        (0x61 + n - 10) as u8
    }
}

/// The bytes `b`, each written `%XX` in hexadecimal, in capitals when
/// `upper`, else in small letters.
pub open spec fn hex_escape(b: Seq<u8>, upper: bool) -> Seq<u8> {
    Seq::new(
        (3 * b.len()) as nat,
        |i: int|
            if i % 3 == 0 {
                0x25u8
            } else if i % 3 == 1 {
                hex_digit(b[i / 3] / 16, upper)
            } else {
                hex_digit(b[i / 3] % 16, upper)
            },
    )
}

/// `s` percent-encoded: each byte of its UTF-8 form written `%XX`, with
/// capital hexadecimal letters when `upper`, else small ones.
pub open spec fn percent_encode(s: Seq<char>, upper: bool) -> Seq<char> {
    decode_utf8(hex_escape(encode_utf8(s), upper))
}

proof fn lemma_hex_digit(x: u8, upper: bool)
    ensures
        hex_pair(hex_digit(x / 16, upper), hex_digit(x % 16, upper)) == Some(x),
{
    assert(x / 16 * 16 + x % 16 == x);
}

proof fn lemma_unescape_hex(b: Seq<u8>, upper: bool, k: int)
    requires
        0 <= k <= b.len(),
    ensures
        unescape_from(hex_escape(b, upper), 3 * k, b.take(k)) == Some(b),
    decreases b.len() - k,
{
    let s = hex_escape(b, upper);
    if k == b.len() {
        assert(b.take(k) =~= b);
    } else {
        let i = 3 * k;
        assert(i % 3 == 0 && (i + 1) % 3 == 1 && (i + 2) % 3 == 2);
        assert((i + 1) / 3 == k && (i + 2) / 3 == k);
        assert(s[i] == 0x25u8);
        assert(s[i + 1] == hex_digit(b[k] / 16, upper));
        assert(s[i + 2] == hex_digit(b[k] % 16, upper));
        lemma_hex_digit(b[k], upper);
        assert(b.take(k).push(b[k]) =~= b.take(k + 1));
        lemma_unescape_hex(b, upper, k + 1);
        assert(3 * (k + 1) == i + 3);
    }
}

proof fn lemma_unescape_plain(s: Seq<u8>, i: int, acc: Seq<u8>)
    requires
        0 <= i <= s.len(),
        forall|j: int| i <= j < s.len() ==> s[j] != 0x25u8,
    ensures
        unescape_from(s, i, acc) == Some(acc + s.subrange(i, s.len() as int)),
    decreases s.len() - i,
{
    if i < s.len() {
        lemma_unescape_plain(s, i + 1, acc.push(s[i]));
        assert(acc.push(s[i]) + s.subrange(i + 1, s.len() as int) =~= acc + s.subrange(
            i,
            s.len() as int,
        ));
    } else {
        assert(acc + s.subrange(i, s.len() as int) =~= acc);
    }
}

proof fn lemma_scalar_has_no_percent(c: u32)
    requires
        is_scalar(c),
        c != 0x25,
    ensures
        forall|j: int| 0 <= j < encode_scalar(c).len() ==> encode_scalar(c)[j] != 0x25u8,
{
    assert(has_width_1_encoding(c) && c != 0x25 ==> leading_byte_width_1(c) != 0x25u8)
        by (bit_vector);
    assert(leading_byte_width_2(c) != 0x25u8) by (bit_vector);
    assert(leading_byte_width_3(c) != 0x25u8) by (bit_vector);
    assert(leading_byte_width_4(c) != 0x25u8) by (bit_vector);
    assert(last_continuation_byte(c) != 0x25u8) by (bit_vector);
    assert(second_last_continuation_byte(c) != 0x25u8) by (bit_vector);
    assert(third_last_continuation_byte(c) != 0x25u8) by (bit_vector);
}

proof fn lemma_utf8_has_no_percent(s: Seq<char>)
    requires
        !s.contains('%'),
    ensures
        forall|j: int| 0 <= j < encode_utf8(s).len() ==> encode_utf8(s)[j] != 0x25u8,
    decreases s.len(),
{
    if s.len() > 0 {
        let rest = s.drop_first();
        assert(!rest.contains('%')) by {
            if rest.contains('%') {
                let j = choose|j: int| 0 <= j < rest.len() && rest[j] == '%';
                assert(s[j + 1] == '%');
            }
        }
        lemma_utf8_has_no_percent(rest);
        let c = s[0];
        assert(c != '%');
        char_is_scalar(c);
        assert((c as u32) != 0x25) by {
            if (c as u32) == 0x25 {
                char_u32_cast(c, 0x25);
                char_u32_cast('%', 0x25);
            }
        }
        lemma_scalar_has_no_percent(c as u32);
        let e = encode_scalar(c as u32);
        let t = encode_utf8(rest);
        assert(encode_utf8(s) == e + t);
        assert forall|j: int| 0 <= j < encode_utf8(s).len() implies encode_utf8(s)[j] != 0x25u8 by {
            if j < e.len() {
                assert(encode_utf8(s)[j] == e[j]);
            } else {
                assert(encode_utf8(s)[j] == t[j - e.len()]);
            }
        }
    }
}

/// Percent-decoding undoes percent-encoding, and leaves text without `%`
/// as it is: decoding `s` with every byte written `%XX` gives `s` back,
/// whether the hexadecimal letters are capitals or small, and so does
/// decoding `s` itself when it has no `%`.
pub proof fn law_percent_decoding_round_trips(s: Seq<char>, upper: bool)
    ensures
        percent_decode_model(percent_encode(s, upper)) == Some(s),
        !s.contains('%') ==> percent_decode_model(s) == Some(s),
{
    broadcast use vstd::utf8::encode_utf8_valid_utf8, vstd::utf8::encode_utf8_decode_utf8;

    let b = encode_utf8(s);
    let h = hex_escape(b, upper);
    assert forall|i: int| 0 <= i < h.len() implies #[trigger] is_leading_byte_width_1(h[i]) by {
        assert(b[i / 3] / 16 < 16 && b[i / 3] % 16 < 16);
    }
    assert(h.subrange(0, 0) =~= Seq::<u8>::empty());
    assert(valid_utf8(Seq::<u8>::empty())) by {
        reveal_with_fuel(valid_utf8, 1);
    }
    vstd::utf8::partial_valid_utf8_extend_ascii_block(h, 0, h.len() as int);
    assert(h.subrange(0, h.len() as int) =~= h);
    vstd::utf8::decode_utf8_encode_utf8(h);
    assert(encode_utf8(percent_encode(s, upper)) == h);
    assert(b.take(0) =~= Seq::<u8>::empty());
    lemma_unescape_hex(b, upper, 0);
    if !s.contains('%') {
        lemma_utf8_has_no_percent(s);
        lemma_unescape_plain(b, 0, seq![]);
        assert(Seq::<u8>::empty() + b.subrange(0, b.len() as int) =~= b);
    }
}

/// Decodes bytes as UTF-8 (`String::from_utf8`).
#[verifier::external_body]
fn utf8_string(bytes: Vec<u8>) -> (r: Option<String>)
    ensures
        r is Some <==> valid_utf8(bytes@),
        r matches Some(s) ==> s@ == decode_utf8(bytes@),
{
    String::from_utf8(bytes).ok()
}

/// The value of an ASCII hexadecimal digit.
fn hex(b: u8) -> (r: Option<u8>)
    ensures
        r == hex_value(b),
{
    if 0x30 <= b && b <= 0x39 {
        Some(b - 0x30)
    } else if 0x61 <= b && b <= 0x66 {
        Some(b - 0x61 + 10)
    } else if 0x41 <= b && b <= 0x46 {
        Some(b - 0x41 + 10)
    } else {
        None
    }
}

/// Replaces every `%XX` in a URL path with the byte it spells; `None` when an
/// escape is malformed or the result is not UTF-8.
pub fn percent_decode(target: &str) -> (r: Option<String>)
    ensures
        match r {
            Some(s) => percent_decode_model(target@) == Some(s@),
            None => percent_decode_model(target@) is None,
        },
{
    let bytes = target.as_bytes();
    let ghost bv = bytes@;
    assert(bv == encode_utf8(target@));
    let mut decoded: Vec<u8> = Vec::new();
    let mut i: usize = 0;
    while i < bytes.len()
        invariant
            0 <= i <= bytes.len(),
            bv == bytes@,
            bv == encode_utf8(target@),
            unescape_from(bv, 0, seq![]) == unescape_from(bv, i as int, decoded@),
        decreases bytes.len() - i,
    {
        if bytes[i] == 0x25 {
            if bytes.len() - i <= 2 {
                return None;
            }
            let b1 = bytes[i + 1];
            let b2 = bytes[i + 2];
            let b = match (hex(b1), hex(b2)) {
                (Some(h), Some(l)) => h * 16 + l,
                (None, Some(l)) => {
                    if b1 == 0x2b {
                        l
                    } else {
                        return None;
                    }
                },
                _ => {
                    return None;
                },
            };
            decoded.push(b);
            i = i + 3;
        } else {
            decoded.push(bytes[i]);
            i = i + 1;
        }
    }
    utf8_string(decoded)
}

/// Index of the first `?` or `#` of `t`, or `t.len()`.
pub open spec fn query_start(t: Seq<char>, i: int) -> int
    decreases t.len() - i,
{
    if i < 0 || i >= t.len() {
        t.len() as int
    } else if t[i] == '?' || t[i] == '#' {
        i
    } else {
        query_start(t, i + 1)
    }
}

/// The path segments of `d[i..]`, split at `/`, empty and `.` segments dropped;
/// `None` at a `..` segment. `cur` is the segment under way, `acc` those before.
pub open spec fn segments_from(d: Seq<char>, i: int, cur: Seq<char>, acc: Seq<Seq<char>>) -> Option<
    Seq<Seq<char>>,
>
    decreases d.len() - i,
{
    if i < 0 || i >= d.len() {
        end_segment(cur, acc)
    } else if d[i] == '/' {
        match end_segment(cur, acc) {
            None => None,
            Some(a) => segments_from(d, i + 1, seq![], a),
        }
    } else {
        segments_from(d, i + 1, cur.push(d[i]), acc)
    }
}

/// The segments `acc` after segment `cur` ends.
pub open spec fn end_segment(cur: Seq<char>, acc: Seq<Seq<char>>) -> Option<Seq<Seq<char>>> {
    if cur == ".."@ {
        None
    } else if cur.len() == 0 || cur == "."@ {
        Some(acc)
    } else {
        Some(acc.push(cur))
    }
}

/// `parts` joined by `/`.
pub open spec fn join_path(parts: Seq<Seq<char>>) -> Seq<char>
    decreases parts.len(),
{
    if parts.len() == 0 {
        seq![]
    } else if parts.len() == 1 {
        parts[0]
    } else {
        join_path(parts.drop_last()) + seq!['/'] + parts.last()
    }
}

/// The file a request target asks for, relative to the output directory:
/// `root` for `/`; `None` when the target does not start with `/`, does not
/// percent-decode, or climbs out with `..`. The query and fragment are ignored.
pub open spec fn requested_file_model(target: Seq<char>, root: Seq<char>) -> Option<Seq<char>> {
    let path = target.subrange(0, query_start(target, 0));
    if path.len() == 0 || path[0] != '/' {
        None
    } else {
        match percent_decode_model(path.drop_first()) {
            None => None,
            Some(d) => match segments_from(d, 0, seq![], seq![]) {
                None => None,
                Some(parts) => if parts.len() == 0 {
                    Some(root)
                } else {
                    Some(join_path(parts))
                },
            },
        }
    }
}

/// Whether `p` is a plain name: not empty, not `.` or `..`, without a `/`.
pub open spec fn plain_name(p: Seq<char>) -> bool {
    p.len() > 0 && p != "."@ && p != ".."@ && !p.contains('/')
}

/// Whether every one of `parts` is a plain name.
pub open spec fn plain_names(parts: Seq<Seq<char>>) -> bool {
    forall|k: int| 0 <= k < parts.len() ==> plain_name(#[trigger] parts[k])
}

proof fn lemma_segments_are_plain(d: Seq<char>, i: int, cur: Seq<char>, acc: Seq<Seq<char>>)
    requires
        0 <= i <= d.len(),
        plain_names(acc),
        !cur.contains('/'),
    ensures
        segments_from(d, i, cur, acc) matches Some(parts) ==> plain_names(parts),
    decreases d.len() - i,
{
    if let Some(a) = end_segment(cur, acc) {
        assert(plain_names(a)) by {
            if a.len() > acc.len() {
                assert forall|k: int| 0 <= k < a.len() implies plain_name(#[trigger] a[k]) by {
                    if k < acc.len() {
                        assert(a[k] == acc[k]);
                    }
                }
            }
        }
    }
    if i < d.len() {
        if d[i] == '/' {
            if let Some(a) = end_segment(cur, acc) {
                assert(!Seq::<char>::empty().contains('/'));
                lemma_segments_are_plain(d, i + 1, seq![], a);
            }
        } else {
            assert(!cur.push(d[i]).contains('/')) by {
                if cur.push(d[i]).contains('/') {
                    let j = choose|j: int| 0 <= j < cur.push(d[i]).len() && cur.push(d[i])[j] == '/';
                    if j < cur.len() {
                        assert(cur[j] == '/');
                    }
                }
            }
            lemma_segments_are_plain(d, i + 1, cur.push(d[i]), acc);
        }
    }
}

/// What the preview serves never lies outside the output directory: the file
/// is the page served for `/`, or plain names joined by `/`, none of them
/// empty, `.` or `..`.
pub proof fn law_served_files_stay_inside(target: Seq<char>, root: Seq<char>)
    ensures
        requested_file_model(target, root) matches Some(file) ==> file == root || exists|
            parts: Seq<Seq<char>>,
        | parts.len() > 0 && file == join_path(parts) && plain_names(parts),
{
    let path = target.subrange(0, query_start(target, 0));
    if path.len() > 0 && path[0] == '/' {
        if let Some(d) = percent_decode_model(path.drop_first()) {
            assert(!Seq::<char>::empty().contains('/'));
            lemma_segments_are_plain(d, 0, seq![], seq![]);
        }
    }
}

/// Whether `v` spells `s`.
fn spells(v: &Vec<char>, s: &str) -> (r: bool)
    ensures
        r == (v@ == s@),
{
    crate::text::chars_are(v, s)
}

/// The file a request target asks for, relative to the output directory, with
/// `/` between its parts.
pub fn requested_file(target: &str, root: &str) -> (r: Option<String>)
    ensures
        match r {
            Some(s) => requested_file_model(target@, root@) == Some(s@),
            None => requested_file_model(target@, root@) is None,
        },
{
    let t = crate::text::chars_of(target);
    let mut q: usize = 0;
    while q < t.len() && t[q] != '?' && t[q] != '#'
        invariant
            0 <= q <= t.len(),
            query_start(t@, 0) == query_start(t@, q as int),
        decreases t.len() - q,
    {
        q = q + 1;
    }
    if q == 0 || t[0] != '/' {
        return None;
    }
    let rest = crate::text::string_of(&t, 1, q);
    assert(rest@ =~= t@.subrange(0, q as int).drop_first());
    let d = match percent_decode(rest.as_str()) {
        None => {
            return None;
        },
        Some(d) => crate::text::chars_of(d.as_str()),
    };
    let mut parts: Vec<Vec<char>> = Vec::new();
    let mut cur: Vec<char> = Vec::new();
    let mut i: usize = 0;
    assert(parts@.map_values(|p: Vec<char>| p@) =~= Seq::<Seq<char>>::empty());
    assert(cur@ =~= Seq::<char>::empty());
    while i < d.len()
        invariant
            0 <= i <= d.len(),
            requested_file_model(target@, root@) == match segments_from(d@, 0, seq![], seq![]) {
                None => None,
                Some(parts) => if parts.len() == 0 {
                    Some(root@)
                } else {
                    Some(join_path(parts))
                },
            },
            segments_from(d@, 0, seq![], seq![]) == segments_from(
                d@,
                i as int,
                cur@,
                parts@.map_values(|p: Vec<char>| p@),
            ),
        decreases d.len() - i,
    {
        if d[i] == '/' {
            if spells(&cur, "..") {
                return None;
            }
            if cur.len() > 0 && !spells(&cur, ".") {
                let ghost before = parts@.map_values(|p: Vec<char>| p@);
                let ghost c = cur@;
                parts.push(cur);
                assert(parts@.map_values(|p: Vec<char>| p@) =~= before.push(c));
            }
            cur = Vec::new();
            assert(cur@ =~= Seq::<char>::empty());
        } else {
            cur.push(d[i]);
        }
        i = i + 1;
    }
    if spells(&cur, "..") {
        return None;
    }
    if cur.len() > 0 && !spells(&cur, ".") {
        let ghost before = parts@.map_values(|p: Vec<char>| p@);
        let ghost c = cur@;
        parts.push(cur);
        assert(parts@.map_values(|p: Vec<char>| p@) =~= before.push(c));
    }
    let ghost pv = parts@.map_values(|p: Vec<char>| p@);
    if parts.len() == 0 {
        return Some(owned(root));
    }
    let mut out = String::new();
    let mut k: usize = 0;
    assert(pv.take(0) =~= Seq::<Seq<char>>::empty());
    while k < parts.len()
        invariant
            0 <= k <= parts.len(),
            pv == parts@.map_values(|p: Vec<char>| p@),
            out@ == join_path(pv.take(k as int)),
        decreases parts.len() - k,
    {
        proof {
            assert(pv.take(k + 1).drop_last() =~= pv.take(k as int));
            assert(pv[k as int] == parts@[k as int]@);
            if k == 0 {
                assert(out@ =~= Seq::<char>::empty());
            }
        }
        if k > 0 {
            push_char(&mut out, '/');
        }
        crate::text::push_chars(&mut out, &parts[k], 0, parts[k].len());
        assert(parts@[k as int]@.subrange(0, parts@[k as int]@.len() as int) =~= parts@[k as int]@);
        k = k + 1;
    }
    assert(pv.take(pv.len() as int) =~= pv);
    Some(out)
}

/// The code point of `c` with an ASCII capital made small.
pub open spec fn lower_code(c: char) -> u32 {
    if 'A' <= c && c <= 'Z' {
        (c as u32 + 32) as u32
    } else {
        c as u32
    }
}

/// Whether `e`, ASCII-lowercased, is `word`.
pub open spec fn lower_spells(e: Seq<char>, word: Seq<char>) -> bool {
    e.len() == word.len() && forall|i: int| 0 <= i < e.len() ==> lower_code(#[trigger] e[i]) == word[i] as u32
}

/// The media type served for a file extension.
pub open spec fn media_type(e: Seq<char>) -> Seq<char> {
    if lower_spells(e, "html"@) || lower_spells(e, "htm"@) {
        "text/html; charset=utf-8"@
    } else if lower_spells(e, "css"@) {
        "text/css; charset=utf-8"@
    } else if lower_spells(e, "js"@) {
        "text/javascript; charset=utf-8"@
    } else if lower_spells(e, "txt"@) {
        "text/plain; charset=utf-8"@
    } else if lower_spells(e, "svg"@) {
        "image/svg+xml"@
    } else if lower_spells(e, "png"@) {
        "image/png"@
    } else if lower_spells(e, "jpg"@) || lower_spells(e, "jpeg"@) {
        "image/jpeg"@
    } else if lower_spells(e, "gif"@) {
        "image/gif"@
    } else if lower_spells(e, "webp"@) {
        "image/webp"@
    } else if lower_spells(e, "bmp"@) {
        "image/bmp"@
    } else {
        "application/octet-stream"@
    }
}

/// The content type of a file by its extension; binary when none is known.
pub open spec fn content_type_model(p: Seq<char>) -> Seq<char> {
    match file_name_model(p) {
        None => "application/octet-stream"@,
        Some(n) => match extension_model(n) {
            None => "application/octet-stream"@,
            Some(e) => media_type(e),
        },
    }
}

/// Whether `e`, ASCII-lowercased, spells `word`.
fn lower_is(e: &Vec<char>, word: &str) -> (r: bool)
    ensures
        r == lower_spells(e@, word@),
{
    let w = crate::text::chars_of(word);
    if e.len() != w.len() {
        return false;
    }
    let mut i: usize = 0;
    while i < e.len()
        invariant
            0 <= i <= e.len(),
            e.len() == w.len(),
            w@ == word@,
            forall|j: int| 0 <= j < i ==> lower_code(#[trigger] e@[j]) == w@[j] as u32,
        decreases e.len() - i,
    {
        let c = e[i];
        let code: u32 = if 'A' <= c && c <= 'Z' {
            (c as u32) + 32
        } else {
            c as u32
        };
        if code != w[i] as u32 {
            return false;
        }
        i = i + 1;
    }
    true
}

/// The content type to serve a file with, by its extension; unknown
/// extensions are served as a binary stream.
pub fn content_type(path: &str) -> (r: &'static str)
    ensures
        r@ == content_type_model(path@),
{
    let p = crate::text::chars_of(path);
    let n = match file_name(&p) {
        None => {
            return "application/octet-stream";
        },
        Some(n) => n,
    };
    let k = dot_end(&n);
    if k <= 1 {
        return "application/octet-stream";
    }
    let e = crate::text::copy_range(&n, k, n.len());
    if lower_is(&e, "html") || lower_is(&e, "htm") {
        "text/html; charset=utf-8"
    } else if lower_is(&e, "css") {
        "text/css; charset=utf-8"
    } else if lower_is(&e, "js") {
        "text/javascript; charset=utf-8"
    } else if lower_is(&e, "txt") {
        "text/plain; charset=utf-8"
    } else if lower_is(&e, "svg") {
        "image/svg+xml"
    } else if lower_is(&e, "png") {
        "image/png"
    } else if lower_is(&e, "jpg") || lower_is(&e, "jpeg") {
        "image/jpeg"
    } else if lower_is(&e, "gif") {
        "image/gif"
    } else if lower_is(&e, "webp") {
        "image/webp"
    } else if lower_is(&e, "bmp") {
        "image/bmp"
    } else {
        "application/octet-stream"
    }
}

/// The content type of the preview's own pages.
pub const HTML: &'static str = "text/html; charset=utf-8";

/// The page answered when the output directory has no such file.
pub const NOT_FOUND_PAGE: &'static str = "<!DOCTYPE html>
<html lang=\"zh-CN\">
<head><meta charset=\"utf-8\"><title>找不到</title></head>
<body><p>输出目录里没有这个文件。</p></body>
</html>
";

/// The page answered to a method other than GET and HEAD.
pub const METHOD_NOT_ALLOWED_PAGE: &'static str = "<!DOCTYPE html>
<html lang=\"zh-CN\">
<head><meta charset=\"utf-8\"><title>不接受这个请求</title></head>
<body><p>本地预览只提供 GET 与 HEAD 请求。</p></body>
</html>
";

/// Index of the first `\n` of `s` at or after `i`, or `s.len()`.
pub open spec fn newline_from(s: Seq<char>, i: int) -> int
    decreases s.len() - i,
{
    if i < 0 || i >= s.len() {
        s.len() as int
    } else if s[i] == '\n' {
        i
    } else {
        newline_from(s, i + 1)
    }
}

/// The first line of a request head, as `str::lines` gives it: up to the
/// first `\n`, without a `\r` right before it; empty for an empty head.
pub open spec fn request_line(head: Seq<char>) -> Seq<char> {
    let k = newline_from(head, 0);
    if k < head.len() {
        strip_cr(head.subrange(0, k))
    } else {
        head
    }
}

/// The words of `s[i..]` as `str::split_whitespace` gives them, after the word
/// `cur` under way and the words `acc` before it.
pub open spec fn words_from(s: Seq<char>, i: int, cur: Seq<char>, acc: Seq<Seq<char>>) -> Seq<
    Seq<char>,
>
    decreases s.len() - i,
{
    if i < 0 || i >= s.len() {
        end_word(cur, acc)
    } else if is_ws(s[i]) {
        words_from(s, i + 1, seq![], end_word(cur, acc))
    } else {
        words_from(s, i + 1, cur.push(s[i]), acc)
    }
}

/// The words `acc` once the word `cur` has ended.
pub open spec fn end_word(cur: Seq<char>, acc: Seq<Seq<char>>) -> Seq<Seq<char>> {
    if cur.len() > 0 {
        acc.push(cur)
    } else {
        acc
    }
}

/// Word `n` of `words`, or the empty word.
pub open spec fn nth_word(words: Seq<Seq<char>>, n: int) -> Seq<char> {
    if 0 <= n < words.len() {
        words[n]
    } else {
        seq![]
    }
}

/// How the preview answers a request.
#[derive(Debug, PartialEq, Eq)]
pub enum Route {
    /// Neither GET nor HEAD: answered 405.
    MethodNotAllowed,
    /// No file of the output directory answers it: 404.
    NotFound { head_only: bool },
    /// The file to send, relative to the output directory.
    File { file: String, head_only: bool },
}

/// The view of a [`Route`].
pub enum RouteV {
    MethodNotAllowed,
    NotFound { head_only: bool },
    File { file: Seq<char>, head_only: bool },
}

impl View for Route {
    type V = RouteV;

    open spec fn view(&self) -> RouteV {
        match self {
            Route::MethodNotAllowed => RouteV::MethodNotAllowed,
            Route::NotFound { head_only } => RouteV::NotFound { head_only: *head_only },
            Route::File { file, head_only } => RouteV::File { file: file@, head_only: *head_only },
        }
    }
}

/// How a request with head `head` is answered, `root` being the page served
/// for `/`: its request line is method, target and version.
pub open spec fn route_model(head: Seq<char>, root: Seq<char>) -> RouteV {
    let words = words_from(request_line(head), 0, seq![], seq![]);
    let method = nth_word(words, 0);
    let target = nth_word(words, 1);
    if method == "GET"@ || method == "HEAD"@ {
        let head_only = method == "HEAD"@;
        match requested_file_model(target, root) {
            None => RouteV::NotFound { head_only },
            Some(file) => RouteV::File { file, head_only },
        }
    } else {
        RouteV::MethodNotAllowed
    }
}

/// The words of `s`, in order.
fn words(s: &Vec<char>) -> (r: Vec<Vec<char>>)
    ensures
        r@.map_values(|w: Vec<char>| w@) == words_from(s@, 0, seq![], seq![]),
{
    let mut acc: Vec<Vec<char>> = Vec::new();
    let mut cur: Vec<char> = Vec::new();
    let mut i: usize = 0;
    assert(acc@.map_values(|w: Vec<char>| w@) =~= Seq::<Seq<char>>::empty());
    assert(cur@ =~= Seq::<char>::empty());
    while i < s.len()
        invariant
            0 <= i <= s.len(),
            words_from(s@, 0, seq![], seq![]) == words_from(
                s@,
                i as int,
                cur@,
                acc@.map_values(|w: Vec<char>| w@),
            ),
        decreases s.len() - i,
    {
        if is_whitespace(s[i]) {
            end_word_into(&mut acc, cur);
            cur = Vec::new();
            assert(cur@ =~= Seq::<char>::empty());
        } else {
            cur.push(s[i]);
        }
        i = i + 1;
    }
    end_word_into(&mut acc, cur);
    acc
}

/// Adds the ended word `cur` to `acc` unless it is empty.
fn end_word_into(acc: &mut Vec<Vec<char>>, cur: Vec<char>)
    ensures
        final(acc)@.map_values(|w: Vec<char>| w@) == end_word(
            cur@,
            old(acc)@.map_values(|w: Vec<char>| w@),
        ),
{
    if cur.len() > 0 {
        let ghost before = acc@.map_values(|w: Vec<char>| w@);
        let ghost c = cur@;
        acc.push(cur);
        assert(acc@.map_values(|w: Vec<char>| w@) =~= before.push(c));
    }
}

/// How the preview answers a request whose head is `head`; `root` is the page
/// served for `/`.
pub fn route(head: &str, root: &str) -> (r: Route)
    ensures
        r@ == route_model(head@, root@),
{
    let h = chars_of(head);
    let mut k: usize = 0;
    while k < h.len() && h[k] != '\n'
        invariant
            0 <= k <= h.len(),
            h@ == head@,
            newline_from(h@, 0) == newline_from(h@, k as int),
        decreases h.len() - k,
    {
        k = k + 1;
    }
    let mut line = copy_range(&h, 0, k);
    if k < h.len() {
        if line.len() > 0 && line[line.len() - 1] == '\r' {
            let ghost whole = line@;
            line.pop();
            assert(line@ =~= strip_cr(whole));
        }
    } else {
        assert(line@ =~= h@);
    }
    let ws = words(&line);
    let ghost wv = ws@.map_values(|w: Vec<char>| w@);
    let empty: Vec<char> = Vec::new();
    let method = if ws.len() > 0 {
        &ws[0]
    } else {
        &empty
    };
    let target = if ws.len() > 1 {
        string_of(&ws[1], 0, ws[1].len())
    } else {
        String::new()
    };
    assert(method@ =~= nth_word(wv, 0));
    assert(target@ =~= nth_word(wv, 1));
    let head_only = if spells(method, "GET") {
        false
    } else if spells(method, "HEAD") {
        true
    } else {
        return Route::MethodNotAllowed;
    };
    proof {
        reveal_strlit("GET");
        reveal_strlit("HEAD");
    }
    match requested_file(target.as_str(), root) {
        None => Route::NotFound { head_only },
        Some(file) => Route::File { file, head_only },
    }
}

/// The head of a response, as the preview writes it: the status line, the
/// content type and length, and no caching, so that a reload after a rebuild
/// shows the new page.
pub open spec fn response_head_model(
    status: nat,
    reason: Seq<char>,
    content_type: Seq<char>,
    length: nat,
) -> Seq<char> {
    "HTTP/1.1 "@ + decimal(status) + " "@ + reason + "\r\nContent-Type: "@ + content_type
        + "\r\nContent-Length: "@ + decimal(length)
        + "\r\nCache-Control: no-store\r\nConnection: close\r\n\r\n"@
}

/// The head of a response with `status`, `reason`, `content_type` and a body
/// of `length` bytes.
pub fn response_head(status: u16, reason: &str, content_type: &str, length: usize) -> (r: String)
    ensures
        r@ == response_head_model(status as nat, reason@, content_type@, length as nat),
{
    let mut out = String::new();
    push_str(&mut out, "HTTP/1.1 ");
    let code = decimal_string(status as usize);
    push_str(&mut out, code.as_str());
    push_str(&mut out, " ");
    push_str(&mut out, reason);
    push_str(&mut out, "\r\nContent-Type: ");
    push_str(&mut out, content_type);
    push_str(&mut out, "\r\nContent-Length: ");
    let n = decimal_string(length);
    push_str(&mut out, n.as_str());
    push_str(&mut out, "\r\nCache-Control: no-store\r\nConnection: close\r\n\r\n");
    assert(out@ =~= response_head_model(status as nat, reason@, content_type@, length as nat));
    out
}

/// The most bytes a request head may take; a longer one closes the connection.
pub const MAX_HEAD: usize = 8192;

/// Where reading a request head stands after a byte.
#[derive(Debug, Clone, Copy, PartialEq, Eq, Structural)]
pub enum HeadStep {
    /// The head ends with its blank line: it is complete.
    Complete,
    /// The head may go on: read another byte.
    More,
    /// `MAX_HEAD` bytes and no end: give up on the request.
    TooLong,
}

/// Whether `head` ends with `\r\n\r\n`.
pub open spec fn ends_head(head: Seq<u8>) -> bool {
    head.len() >= 4 && head.subrange(head.len() - 4, head.len() as int) == seq![
        0x0du8,
        0x0au8,
        0x0du8,
        0x0au8,
    ]
}

/// Where reading stands once the bytes `head` have been read.
pub open spec fn head_step_model(head: Seq<u8>) -> HeadStep {
    if ends_head(head) {
        HeadStep::Complete
    } else if head.len() >= MAX_HEAD {
        HeadStep::TooLong
    } else {
        HeadStep::More
    }
}

/// Where reading a request head stands once the bytes `head` have been read,
/// one byte at a time: a head is complete at its first blank line, and is
/// given up after `MAX_HEAD` bytes.
pub fn head_step(head: &Vec<u8>) -> (r: HeadStep)
    ensures
        r == head_step_model(head@),
{
    let n = head.len();
    if n >= 4 && head[n - 4] == 0x0d && head[n - 3] == 0x0a && head[n - 2] == 0x0d && head[n - 1]
        == 0x0a {
        assert(head@.subrange(n - 4, n as int) =~= seq![0x0du8, 0x0au8, 0x0du8, 0x0au8]);
        HeadStep::Complete
    } else {
        assert(n >= 4 ==> head@.subrange(n - 4, n as int)[0] == head@[n - 4]);
        assert(n >= 4 ==> head@.subrange(n - 4, n as int)[1] == head@[n - 3]);
        assert(n >= 4 ==> head@.subrange(n - 4, n as int)[2] == head@[n - 2]);
        assert(n >= 4 ==> head@.subrange(n - 4, n as int)[3] == head@[n - 1]);
        if n >= MAX_HEAD {
            HeadStep::TooLong
        } else {
            HeadStep::More
        }
    }
}

/// A file is served by the type of what follows the last dot of its name:
/// for a stem (dots allowed, no `/`) and an extension (no dot, no `/`), the
/// file `stem.ext`, alone or after any path and a `/`, is served with the
/// media type of `ext`.
pub proof fn law_content_type_follows_the_last_dot(
    base: Seq<char>,
    stem: Seq<char>,
    ext: Seq<char>,
)
    requires
        stem.len() > 0,
        ext.len() > 0,
        !stem.contains('/'),
        !ext.contains('/'),
        !ext.contains('.'),
    ensures
        content_type_model(stem + seq!['.'] + ext) == media_type(ext),
        content_type_model(base + seq!['/'] + (stem + seq!['.'] + ext)) == media_type(ext),
{
    reveal_strlit(".");
    reveal_strlit("..");
    let n = stem + seq!['.'] + ext;
    assert(!n.contains('/')) by {
        if n.contains('/') {
            let j = choose|j: int| 0 <= j < n.len() && n[j] == '/';
            if j < stem.len() {
                assert(stem[j] == '/');
                assert(stem.contains('/'));
            } else if j > stem.len() {
                assert(ext[j - stem.len() - 1] == '/');
                assert(ext.contains('/'));
            }
        }
    }
    assert(n != "."@ && n != ".."@) by {
        assert(n.len() >= 3 || n[n.len() - 1] != '.');
        assert(n[n.len() - 1] == ext[ext.len() - 1]);
        if ext[ext.len() - 1] == '.' {
            assert(ext.contains('.'));
        }
    }
    crate::path::law_file_name_is_the_last_part(base, n);
    crate::path::law_extension_follows_the_last_dot(stem, ext);
}

} // verus!
