//! Base64, as file contents travel to and from a remote host.

use vstd::prelude::*;

use crate::error::{IoError, IoErrorKind, IoFault};
use crate::text::chars_of;

verus! {

/// The character that stands for six bits.
pub open spec fn b64_char(v: int) -> char {
    if v < 26 {
        ((v + 65) as u8) as char
    } else if v < 52 {
        ((v + 71) as u8) as char
    } else if v < 62 {
        ((v - 4) as u8) as char
    } else if v == 62 {
        '+'
    } else {
        '/'
    }
}

/// The six bits that a character stands for.
pub open spec fn b64_value(c: char) -> Option<int> {
    let n = c as u32;
    if 65 <= n <= 90 {
        Some(n - 65)
    } else if 97 <= n <= 122 {
        Some(n - 71)
    } else if 48 <= n <= 57 {
        Some(n + 4)
    } else if c == '+' {
        Some(62)
    } else if c == '/' {
        Some(63)
    } else {
        None
    }
}

/// The white space of ASCII: space, tab, line feed, form feed and carriage return.
pub open spec fn ascii_blank(c: char) -> bool {
    let n = c as u32;
    n == 0x20 || n == 0x9 || n == 0xa || n == 0xc || n == 0xd
}

/// The four characters for up to three bytes.
pub open spec fn quad(d: Seq<u8>) -> Seq<char> {
    let b0 = d[0] as int;
    let b1 = if d.len() > 1 {
        d[1] as int
    } else {
        0
    };
    let b2 = if d.len() > 2 {
        d[2] as int
    } else {
        0
    };
    seq![
        b64_char(b0 / 4),
        b64_char((b0 % 4) * 16 + b1 / 16),
        if d.len() > 1 {
            b64_char((b1 % 16) * 4 + b2 / 64)
        } else {
            '='
        },
        if d.len() > 2 {
            b64_char(b2 % 64)
        } else {
            '='
        },
    ]
}

/// The text that stands for the bytes: four characters for each three bytes, the last four
/// filled up with `=`.
pub open spec fn b64_text(d: Seq<u8>) -> Seq<char>
    decreases d.len(),
{
    if d.len() == 0 {
        seq![]
    } else if d.len() <= 3 {
        quad(d)
    } else {
        quad(d.take(3)) + b64_text(d.skip(3))
    }
}

/// The groups of six bits in a text up to its first `=`, white space left out; nothing where
/// another character occurs.
pub open spec fn sextets(s: Seq<char>) -> Option<Seq<int>>
    decreases s.len(),
{
    if s.len() == 0 {
        Some(seq![])
    } else if ascii_blank(s[0]) {
        sextets(s.skip(1))
    } else if s[0] == '=' {
        Some(seq![])
    } else {
        match (b64_value(s[0]), sextets(s.skip(1))) {
            (Some(v), Some(rest)) => Some(seq![v] + rest),
            _ => None,
        }
    }
}

/// The bytes in a row of groups of six bits. A single group at the end stands for no byte.
pub open spec fn packed(q: Seq<int>) -> Option<Seq<u8>>
    decreases q.len(),
{
    if q.len() == 0 {
        Some(seq![])
    } else if q.len() == 1 {
        None
    } else if q.len() == 2 {
        Some(seq![(q[0] * 4 + q[1] / 16) as u8])
    } else if q.len() == 3 {
        Some(seq![(q[0] * 4 + q[1] / 16) as u8, ((q[1] % 16) * 16 + q[2] / 4) as u8])
    } else {
        match packed(q.skip(4)) {
            Some(rest) => Some(
                seq![
                    (q[0] * 4 + q[1] / 16) as u8,
                    ((q[1] % 16) * 16 + q[2] / 4) as u8,
                    ((q[2] % 4) * 64 + q[3]) as u8,
                ] + rest,
            ),
            None => None,
        }
    }
}

/// The bytes that a text stands for.
pub open spec fn b64_bytes(s: Seq<char>) -> Option<Seq<u8>> {
    match sextets(s) {
        Some(q) => packed(q),
        None => None,
    }
}

fn b64_digit(v: u8) -> (c: char)
    requires
        v < 64,
    ensures
        c == b64_char(v as int),
{
    if v < 26 {
        (v + 65) as char
    } else if v < 52 {
        (v + 71) as char
    } else if v < 62 {
        (v - 4) as char
    } else if v == 62 {
        '+'
    } else {
        '/'
    }
}

fn b64_val(c: char) -> (r: Option<u8>)
    ensures
        r is Some == b64_value(c) is Some,
        r matches Some(v) ==> b64_value(c) == Some(v as int) && v < 64,
{
    let n: u32 = c as u32;
    if 65 <= n && n <= 90 {
        Some((n - 65) as u8)
    } else if 97 <= n && n <= 122 {
        Some((n - 71) as u8)
    } else if 48 <= n && n <= 57 {
        Some((n + 4) as u8)
    } else if c == '+' {
        Some(62)
    } else if c == '/' {
        Some(63)
    } else {
        None
    }
}

/// Encodes bytes as base64, without line breaks.
pub fn b64_encode(data: &[u8]) -> (r: String)
    ensures
        r@ == b64_text(data@),
{
    let n: usize = data.len();
    let mut out: String = String::new();
    let mut i: usize = 0;
    proof {
        assert(data@.skip(0) =~= data@);
        assert(out@ + b64_text(data@) =~= b64_text(data@));
    }
    while i < n
        invariant
            n == data@.len(),
            i <= n,
            out@ + b64_text(data@.skip(i as int)) == b64_text(data@),
        decreases n - i,
    {
        let ghost rest = data@.skip(i as int);
        let ghost before = out@;
        let b0: u8 = data[i];
        let b1: u8 = if n - i > 1 {
            data[i + 1]
        } else {
            0
        };
        let b2: u8 = if n - i > 2 {
            data[i + 2]
        } else {
            0
        };
        out.push(b64_digit(b0 / 4));
        out.push(b64_digit((b0 % 4) * 16 + b1 / 16));
        out.push(
            if n - i > 1 {
                b64_digit((b1 % 16) * 4 + b2 / 64)
            } else {
                '='
            },
        );
        out.push(
            if n - i > 2 {
                b64_digit(b2 % 64)
            } else {
                '='
            },
        );
        let step: usize = if n - i > 3 {
            3
        } else {
            n - i
        };
        proof {
            let group = rest.take(step as int);
            assert(out@ =~= before + quad(group));
            if rest.len() <= 3 {
                assert(group =~= rest);
                assert(data@.skip(i + step) =~= seq![]);
            } else {
                assert(rest.skip(3) =~= data@.skip(i + step));
            }
            assert(before + quad(group) + b64_text(data@.skip(i + step)) =~= before + b64_text(
                rest,
            ));
        }
        i = i + step;
    }
    proof {
        assert(data@.skip(i as int) =~= seq![]);
        assert(out@ + b64_text(data@.skip(i as int)) =~= out@);
    }
    out
}

/// The groups of six bits as the contracts see them.
pub open spec fn values(q: Seq<u8>) -> Seq<int> {
    q.map_values(|v: u8| v as int)
}

fn read_sextets(s: &str) -> (r: Option<Vec<u8>>)
    ensures
        r is Some == sextets(s@) is Some,
        r matches Some(q) ==> sextets(s@) == Some(values(q@)) && forall|i: int|
            0 <= i < q@.len() ==> #[trigger] q@[i] < 64,
{
    let cs = chars_of(s);
    let mut q: Vec<u8> = Vec::new();
    let mut i: usize = 0;
    proof {
        assert(cs@.skip(0) =~= s@);
        assert forall|rest: Seq<int>| #[trigger] (values(q@) + rest) == rest by {
            assert(values(q@) + rest =~= rest);
        }
    }
    while i < cs.len()
        invariant
            i <= cs@.len(),
            forall|k: int| 0 <= k < q@.len() ==> #[trigger] q@[k] < 64,
            match sextets(cs@.skip(i as int)) {
                Some(rest) => sextets(s@) == Some(values(q@) + rest),
                None => sextets(s@) is None,
            },
        decreases cs@.len() - i,
    {
        let c = cs[i];
        proof {
            assert(cs@.skip(i as int)[0] == c);
            assert(cs@.skip(i as int).skip(1) =~= cs@.skip(i + 1));
        }
        let n: u32 = c as u32;
        if n == 0x20 || n == 0x9 || n == 0xa || n == 0xc || n == 0xd {
            i = i + 1;
            continue;
        }
        if c == '=' {
            proof {
                assert(values(q@) + seq![] =~= values(q@));
            }
            return Some(q);
        }
        match b64_val(c) {
            Some(v) => {
                let ghost before = q@;
                q.push(v);
                proof {
                    assert(values(q@) =~= values(before).push(v as int));
                    match sextets(cs@.skip(i + 1)) {
                        Some(rest) => {
                            assert(values(before) + (seq![v as int] + rest) =~= values(q@) + rest);
                        },
                        None => {},
                    }
                }
            },
            None => {
                return None;
            },
        }
        i = i + 1;
    }
    proof {
        assert(cs@.skip(i as int) =~= seq![]);
        assert(values(q@) + seq![] =~= values(q@));
    }
    Some(q)
}

/// The failure to decode a text.
pub open spec fn not_base64() -> IoFault {
    IoFault { kind: IoErrorKind::InvalidData, message: "remote file is not valid base64"@ }
}

/// Decodes base64. White space may stand anywhere, as where long lines are broken; the `=` at
/// the end may be missing.
pub fn b64_decode(s: &str) -> (r: Result<Vec<u8>, IoError>)
    ensures
        match r {
            Ok(d) => b64_bytes(s@) == Some(d@),
            Err(e) => b64_bytes(s@) is None && e@ == not_base64(),
        },
{
    let q = match read_sextets(s) {
        Some(q) => q,
        None => {
            return Err(IoError::new(IoErrorKind::InvalidData, "remote file is not valid base64"));
        },
    };
    let n: usize = q.len();
    let ghost all = values(q@);
    let mut out: Vec<u8> = Vec::new();
    let mut i: usize = 0;
    proof {
        assert(all.skip(0) =~= all);
        assert forall|rest: Seq<u8>| #[trigger] (out@ + rest) == rest by {
            assert(out@ + rest =~= rest);
        }
    }
    while n - i >= 4
        invariant
            n == q@.len(),
            i <= n,
            all == values(q@),
            forall|k: int| 0 <= k < q@.len() ==> #[trigger] q@[k] < 64,
            match packed(all.skip(i as int)) {
                Some(rest) => packed(all) == Some(out@ + rest),
                None => packed(all) is None,
            },
        decreases n - i,
    {
        let ghost before = out@;
        let ghost rest = all.skip(i as int);
        let (q0, q1, q2, q3): (u8, u8, u8, u8) = (q[i], q[i + 1], q[i + 2], q[i + 3]);
        proof {
            assert(rest[0] == q0 && rest[1] == q1 && rest[2] == q2 && rest[3] == q3);
            assert(rest.skip(4) =~= all.skip(i + 4));
        }
        out.push(q0 * 4 + q1 / 16);
        out.push((q1 % 16) * 16 + q2 / 4);
        out.push((q2 % 4) * 64 + q3);
        proof {
            let bytes = seq![
                (q0 * 4 + q1 / 16) as u8,
                ((q1 % 16) * 16 + q2 / 4) as u8,
                ((q2 % 4) * 64 + q3) as u8,
            ];
            assert(out@ =~= before + bytes);
            match packed(rest.skip(4)) {
                Some(more) => {
                    assert(before + (bytes + more) =~= before + bytes + more);
                },
                None => {},
            }
        }
        i = i + 4;
    }
    let ghost rest = all.skip(i as int);
    proof {
        assert(rest.len() == n - i);
        assert forall|k: int| 0 <= k < rest.len() implies rest[k] == q@[i + k] by {}
    }
    if n - i == 1 {
        return Err(IoError::new(IoErrorKind::InvalidData, "remote file is not valid base64"));
    }
    let ghost before = out@;
    if n - i == 2 {
        let (q0, q1): (u8, u8) = (q[i], q[i + 1]);
        out.push(q0 * 4 + q1 / 16);
        proof {
            assert(out@ =~= before + seq![(q0 * 4 + q1 / 16) as u8]);
        }
    } else if n - i == 3 {
        let (q0, q1, q2): (u8, u8, u8) = (q[i], q[i + 1], q[i + 2]);
        out.push(q0 * 4 + q1 / 16);
        out.push((q1 % 16) * 16 + q2 / 4);
        proof {
            assert(out@ =~= before + seq![
                (q0 * 4 + q1 / 16) as u8,
                ((q1 % 16) * 16 + q2 / 4) as u8,
            ]);
        }
    } else {
        proof {
            assert(before + seq![] =~= before);
        }
    }
    Ok(out)
}

// ---------------------------------------------------------------------------------------------
// Laws
// ---------------------------------------------------------------------------------------------

proof fn lemma_char_value(v: int)
    requires
        0 <= v < 64,
    ensures
        b64_value(b64_char(v)) == Some(v),
        !ascii_blank(b64_char(v)),
        b64_char(v) != '=',
        b64_char(v) != '\'',
{
}

proof fn lemma_sextets_step(v: int, s: Seq<char>)
    requires
        0 <= v < 64,
        s.len() > 0,
        s[0] == b64_char(v),
    ensures
        sextets(s) == match sextets(s.skip(1)) {
            Some(rest) => Some(seq![v] + rest),
            None => None,
        },
{
    lemma_char_value(v);
}

/// Decoding what was encoded gives the bytes back.
pub proof fn law_decode_undoes_encode(d: Seq<u8>)
    ensures
        b64_bytes(b64_text(d)) == Some(d),
    decreases d.len(),
{
    if d.len() == 0 {
    } else {
        let s = b64_text(d);
        let b0 = d[0] as int;
        let b1 = if d.len() > 1 {
            d[1] as int
        } else {
            0
        };
        let b2 = if d.len() > 2 {
            d[2] as int
        } else {
            0
        };
        let v0 = b0 / 4;
        let v1 = (b0 % 4) * 16 + b1 / 16;
        let v2 = (b1 % 16) * 4 + b2 / 64;
        let v3 = b2 % 64;
        let s1 = s.skip(1);
        let s2 = s1.skip(1);
        let s3 = s2.skip(1);
        let s4 = s3.skip(1);
        lemma_sextets_step(v0, s);
        assert(s1[0] == s[1]);
        lemma_sextets_step(v1, s1);
        assert(s2[0] == s[2]);
        assert(v0 * 4 + v1 / 16 == b0);
        if d.len() == 1 {
            assert(sextets(s2) == Some(Seq::<int>::empty()));
            assert(seq![v0] + (seq![v1] + Seq::<int>::empty()) =~= seq![v0, v1]);
            assert(seq![b0 as u8] =~= d);
        } else {
            lemma_sextets_step(v2, s2);
            assert(s3[0] == s[3]);
            assert((v1 % 16) * 16 + v2 / 4 == b1);
            if d.len() == 2 {
                assert(sextets(s3) == Some(Seq::<int>::empty()));
                assert(seq![v0] + (seq![v1] + (seq![v2] + Seq::<int>::empty())) =~= seq![
                    v0,
                    v1,
                    v2,
                ]);
                assert(seq![b0 as u8, b1 as u8] =~= d);
            } else {
                lemma_sextets_step(v3, s3);
                assert((v2 % 4) * 64 + v3 == b2);
                let rest = d.skip(3);
                law_decode_undoes_encode(rest);
                assert(s4 =~= b64_text(rest));
                let q = sextets(s4)->0;
                let all = seq![v0] + (seq![v1] + (seq![v2] + (seq![v3] + q)));
                assert(all.skip(4) =~= q);
                assert(seq![b0 as u8, b1 as u8, b2 as u8] + rest =~= d);
            }
        }
    }
}

/// White space does not matter to decoding, wherever it stands.
pub proof fn law_white_space_does_not_matter(a: Seq<char>, w: char, b: Seq<char>)
    requires
        ascii_blank(w),
    ensures
        b64_bytes(a + seq![w] + b) == b64_bytes(a + b),
{
    lemma_sextets_skip_blank(a, w, b);
}

proof fn lemma_sextets_skip_blank(a: Seq<char>, w: char, b: Seq<char>)
    requires
        ascii_blank(w),
    ensures
        sextets(a + seq![w] + b) == sextets(a + b),
    decreases a.len(),
{
    let s = a + seq![w] + b;
    if a.len() == 0 {
        assert(s[0] == w);
        assert(s.skip(1) =~= a + b);
    } else {
        let rest = a.skip(1);
        assert(s[0] == a[0] && (a + b)[0] == a[0]);
        assert(s.skip(1) =~= rest + seq![w] + b);
        assert((a + b).skip(1) =~= rest + b);
        lemma_sextets_skip_blank(rest, w, b);
    }
}

/// Encoded text holds letters, digits, `+`, `/` and `=` and nothing else, so it can stand
/// between single quotes in a shell script.
pub proof fn law_encoded_text_is_plain(d: Seq<u8>)
    ensures
        forall|i: int|
            0 <= i < b64_text(d).len() ==> b64_value(#[trigger] b64_text(d)[i]) is Some
                || b64_text(d)[i] == '=',
    decreases d.len(),
{
    if d.len() == 0 {
    } else if d.len() <= 3 {
        lemma_quad_plain(d);
    } else {
        lemma_quad_plain(d.take(3));
        law_encoded_text_is_plain(d.skip(3));
        let head = quad(d.take(3));
        let tail = b64_text(d.skip(3));
        assert forall|i: int| 0 <= i < b64_text(d).len() implies b64_value(
            #[trigger] b64_text(d)[i],
        ) is Some || b64_text(d)[i] == '=' by {
            if i < 4 {
                assert(b64_text(d)[i] == head[i]);
            } else {
                assert(b64_text(d)[i] == tail[i - 4]);
            }
        }
    }
}

proof fn lemma_quad_plain(d: Seq<u8>)
    requires
        1 <= d.len() <= 3,
    ensures
        quad(d).len() == 4,
        forall|i: int|
            0 <= i < 4 ==> b64_value(#[trigger] quad(d)[i]) is Some || quad(d)[i] == '=',
{
    let b0 = d[0] as int;
    let b1 = if d.len() > 1 {
        d[1] as int
    } else {
        0
    };
    let b2 = if d.len() > 2 {
        d[2] as int
    } else {
        0
    };
    lemma_char_value(b0 / 4);
    lemma_char_value((b0 % 4) * 16 + b1 / 16);
    lemma_char_value((b1 % 16) * 4 + b2 / 64);
    lemma_char_value(b2 % 64);
}

/// The characters that stand for 0 up to 63.
pub open spec fn alphabet() -> Seq<char> {
    "ABCDEFGHIJKLMNOPQRSTUVWXYZabcdefghijklmnopqrstuvwxyz0123456789+/"@
}

/// The characters are those of the standard alphabet, each for its place in it, and no other
/// character stands for anything.
pub proof fn law_alphabet(v: int, c: char)
    requires
        0 <= v < 64,
    ensures
        alphabet().len() == 64,
        b64_char(v) == alphabet()[v],
        b64_value(c) == Some(v) <==> c == alphabet()[v],
        b64_value(c) is Some <==> alphabet().contains(c),
{
    reveal_strlit("ABCDEFGHIJKLMNOPQRSTUVWXYZabcdefghijklmnopqrstuvwxyz0123456789+/");
    let all = alphabet();
    lemma_alphabet_at(v);
    lemma_char_value(v);
    vstd::utf8::char_u32_cast(c, c as u32);
    vstd::utf8::char_u32_cast(all[v], all[v] as u32);
    if b64_value(c) is Some {
        let k = b64_value(c)->0;
        lemma_alphabet_at(k);
        lemma_char_value(k);
        vstd::utf8::char_u32_cast(all[k], all[k] as u32);
        assert(all[k] as u32 == c as u32);
        assert(all[k] == c);
    }
    if all.contains(c) {
        let k = choose|k: int| 0 <= k < all.len() && all[k] == c;
        lemma_alphabet_at(k);
        lemma_char_value(k);
    }
}

proof fn lemma_alphabet_at(v: int)
    requires
        0 <= v < 64,
    ensures
        alphabet().len() == 64,
        b64_char(v) == alphabet()[v],
{
    reveal_strlit("ABCDEFGHIJKLMNOPQRSTUVWXYZabcdefghijklmnopqrstuvwxyz0123456789+/");
    let c = alphabet()[v];
    let d = b64_char(v);
    vstd::utf8::char_u32_cast(c, c as u32);
    vstd::utf8::char_u32_cast(d, d as u32);
    assert(d as u32 == c as u32);
}

/// Three bytes are one number of four digits to the base 64; two bytes and one fill up with zeros,
/// and padding stands for the digits that are not needed. What comes in threes is encoded piece by
/// piece.
pub proof fn law_encoding_is_positional(a: u8, b: u8, c: u8, front: Seq<u8>, rest: Seq<u8>)
    requires
        front.len() % 3 == 0,
    ensures
        is_number(b64_text(seq![a, b, c]), 4, a * 65536 + b * 256 + c),
        b64_text(seq![a, b, c]).len() == 4,
        is_number(b64_text(seq![a, b]), 3, (a * 256 + b) * 4),
        b64_text(seq![a, b]).skip(3) == seq!['='],
        is_number(b64_text(seq![a]), 2, a * 16),
        b64_text(seq![a]).skip(2) == seq!['=', '='],
        b64_text(front + rest) == b64_text(front) + b64_text(rest),
        b64_text(Seq::<u8>::empty()).len() == 0,
{
    let (x, y, z): (int, int, int) = (a as int, b as int, c as int);
    let three = b64_text(seq![a, b, c]);
    lemma_char_value(x / 4);
    lemma_char_value((x % 4) * 16 + y / 16);
    lemma_char_value((y % 16) * 4 + z / 64);
    lemma_char_value(z % 64);
    assert(three =~= quad(seq![a, b, c]));
    let two = b64_text(seq![a, b]);
    lemma_char_value((y % 16) * 4);
    assert(two =~= quad(seq![a, b]));
    assert(two.skip(3) =~= seq!['=']);
    let one = b64_text(seq![a]);
    lemma_char_value((x % 4) * 16);
    assert(one =~= quad(seq![a]));
    assert(one.skip(2) =~= seq!['=', '=']);
    reveal_with_fuel(digits_number, 5);
    assert(digits_number(three, 4) == x * 65536 + y * 256 + z);
    assert(digits_number(two, 3) == (x * 256 + y) * 4);
    assert(digits_number(one, 2) == x * 16);
    lemma_encoding_in_threes(front, rest);
}

/// The number that the first `n` characters are, to the base 64.
pub open spec fn digits_number(s: Seq<char>, n: int) -> int
    decreases n,
{
    if n <= 0 {
        0
    } else {
        digits_number(s, n - 1) * 64 + b64_value(s[n - 1])->0
    }
}

/// Whether the first `n` characters stand for digits and make up the number `v`.
pub open spec fn is_number(s: Seq<char>, n: int, v: int) -> bool {
    &&& n <= s.len()
    &&& forall|i: int| 0 <= i < n ==> b64_value(#[trigger] s[i]) is Some
    &&& digits_number(s, n) == v
}

proof fn lemma_encoding_in_threes(front: Seq<u8>, rest: Seq<u8>)
    requires
        front.len() % 3 == 0,
    ensures
        b64_text(front + rest) == b64_text(front) + b64_text(rest),
    decreases front.len(),
{
    let all = front + rest;
    if front.len() == 0 {
        assert(all =~= rest);
        assert(b64_text(front) + b64_text(rest) =~= b64_text(rest));
    } else {
        let first = front.take(3);
        let next = front.skip(3);
        lemma_encoding_in_threes(next, rest);
        assert(all.take(3) =~= first);
        assert(all.skip(3) =~= next + rest);
        if front.len() == 3 {
            assert(first =~= front);
            assert(next =~= seq![]);
            assert(b64_text(next) =~= seq![]);
            assert(next + rest =~= rest);
            if rest.len() == 0 {
                assert(all =~= front);
                assert(b64_text(rest) =~= seq![]);
            }
            assert(b64_text(all) =~= b64_text(front) + b64_text(rest));
        } else {
            assert(b64_text(all) =~= quad(first) + (b64_text(next) + b64_text(rest)));
            assert(b64_text(front) =~= quad(first) + b64_text(next));
            assert(b64_text(all) =~= b64_text(front) + b64_text(rest));
        }
    }
}

/// What stands behind the first padding character does not count, and a character that stands for
/// nothing before it spoils the whole.
pub proof fn law_padding_ends_the_text(a: Seq<char>, c: char, b: Seq<char>)
    ensures
        b64_bytes(a + seq!['='] + b) == b64_bytes(a),
        !a.contains('=') && c != '=' && !ascii_blank(c) && b64_value(c) is None ==> b64_bytes(
            a + seq![c] + b,
        ) is None,
{
    lemma_sextets_end(a, b);
    if !a.contains('=') && c != '=' && !ascii_blank(c) && b64_value(c) is None {
        lemma_sextets_spoilt(a, c, b);
    }
}

proof fn lemma_sextets_end(a: Seq<char>, b: Seq<char>)
    ensures
        sextets(a + seq!['='] + b) == sextets(a),
    decreases a.len(),
{
    let s = a + seq!['='] + b;
    if a.len() == 0 {
        assert(s[0] == '=');
    } else {
        assert(s[0] == a[0]);
        assert(s.skip(1) =~= a.skip(1) + seq!['='] + b);
        lemma_sextets_end(a.skip(1), b);
    }
}

proof fn lemma_sextets_spoilt(a: Seq<char>, c: char, b: Seq<char>)
    requires
        !a.contains('='),
        c != '=',
        !ascii_blank(c),
        b64_value(c) is None,
    ensures
        sextets(a + seq![c] + b) is None,
    decreases a.len(),
{
    let s = a + seq![c] + b;
    if a.len() == 0 {
        assert(s[0] == c);
    } else {
        let rest = a.skip(1);
        assert(s[0] == a[0]);
        assert(s.skip(1) =~= rest + seq![c] + b);
        assert(a.contains(a[0]));
        assert forall|i: int| 0 <= i < rest.len() implies rest[i] != '=' by {
            assert(a.contains(a[i + 1]));
        }
        lemma_sextets_spoilt(rest, c, b);
    }
}

/// Four characters are three bytes, three are two and two are one; the bits that are left over
/// then do not count. One alone is nothing.
pub proof fn law_decoding_is_positional(x: int, y: int, z: int, w: int, rest: Seq<char>)
    requires
        0 <= x < 64,
        0 <= y < 64,
        0 <= z < 64,
        0 <= w < 64,
    ensures
        ({
            let r = b64_bytes(seq![alphabet()[x], alphabet()[y], alphabet()[z], alphabet()[w]]);
            r is Some && r->0.len() == 3 && r->0[0] * 65536 + r->0[1] * 256 + r->0[2] == ((x * 64
                + y) * 64 + z) * 64 + w
        }),
        ({
            let r = b64_bytes(seq![alphabet()[x], alphabet()[y], alphabet()[z]]);
            r is Some && r->0.len() == 2 && r->0[0] * 256 + r->0[1] == ((x * 64 + y) * 64 + z) / 4
        }),
        ({
            let r = b64_bytes(seq![alphabet()[x], alphabet()[y]]);
            r is Some && r->0.len() == 1 && r->0[0] == (x * 64 + y) / 16
        }),
        b64_bytes(seq![alphabet()[x]]) is None,
        b64_bytes(
            seq![alphabet()[x], alphabet()[y], alphabet()[z], alphabet()[w]] + rest,
        ) is Some <==> b64_bytes(rest) is Some,
        b64_bytes(rest) is Some ==> b64_bytes(
            seq![alphabet()[x], alphabet()[y], alphabet()[z], alphabet()[w]] + rest,
        )->0 == b64_bytes(
            seq![alphabet()[x], alphabet()[y], alphabet()[z], alphabet()[w]],
        )->0 + b64_bytes(rest)->0,
{
    let none = Seq::<char>::empty();
    let four = seq![alphabet()[x], alphabet()[y], alphabet()[z], alphabet()[w]];
    lemma_alphabet_at(x);
    lemma_alphabet_at(y);
    lemma_alphabet_at(z);
    lemma_alphabet_at(w);
    lemma_sextets_four(x, y, z, w, rest);
    lemma_sextets_four(x, y, z, w, none);
    assert(four + none =~= four);
    assert(sextets(none) == Some(Seq::<int>::empty()));
    let q = seq![x, y, z, w];
    assert(q + Seq::<int>::empty() =~= q);
    assert(q.skip(4) =~= seq![]);
    assert(packed(q.skip(4)) == Some(Seq::<u8>::empty()));
    let three = seq![alphabet()[x], alphabet()[y], alphabet()[z]];
    lemma_sextets_step(x, three);
    lemma_sextets_step(y, three.skip(1));
    lemma_sextets_step(z, three.skip(1).skip(1));
    assert(three.skip(1).skip(1).skip(1) =~= none);
    assert(seq![x] + (seq![y] + (seq![z] + Seq::<int>::empty())) =~= seq![x, y, z]);
    let two = seq![alphabet()[x], alphabet()[y]];
    lemma_sextets_step(x, two);
    lemma_sextets_step(y, two.skip(1));
    assert(two.skip(1).skip(1) =~= none);
    assert(seq![x] + (seq![y] + Seq::<int>::empty()) =~= seq![x, y]);
    let one = seq![alphabet()[x]];
    lemma_sextets_step(x, one);
    assert(one.skip(1) =~= none);
    assert(seq![x] + Seq::<int>::empty() =~= seq![x]);
    if sextets(rest) is Some {
        let more = sextets(rest)->0;
        let all = q + more;
        assert(all.skip(4) =~= more);
        assert(all[0] == x && all[1] == y && all[2] == z && all[3] == w);
        if packed(more) is Some {
            assert(packed(all)->0 =~= packed(q)->0 + packed(more)->0);
        }
    }
}

proof fn lemma_sextets_four(x: int, y: int, z: int, w: int, rest: Seq<char>)
    requires
        0 <= x < 64,
        0 <= y < 64,
        0 <= z < 64,
        0 <= w < 64,
    ensures
        sextets(seq![alphabet()[x], alphabet()[y], alphabet()[z], alphabet()[w]] + rest) == (
        match sextets(rest) {
            Some(more) => Some(seq![x, y, z, w] + more),
            None => None,
        }),
{
    lemma_alphabet_at(x);
    lemma_alphabet_at(y);
    lemma_alphabet_at(z);
    lemma_alphabet_at(w);
    let s = seq![alphabet()[x], alphabet()[y], alphabet()[z], alphabet()[w]] + rest;
    lemma_sextets_step(x, s);
    lemma_sextets_step(y, s.skip(1));
    lemma_sextets_step(z, s.skip(1).skip(1));
    lemma_sextets_step(w, s.skip(1).skip(1).skip(1));
    assert(s.skip(1).skip(1).skip(1).skip(1) =~= rest);
    if sextets(rest) is Some {
        let more = sextets(rest)->0;
        assert(seq![x] + (seq![y] + (seq![z] + (seq![w] + more))) =~= seq![x, y, z, w] + more);
    }
}

} // verus!
