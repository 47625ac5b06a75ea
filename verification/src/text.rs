//! The order in which the library sorts text: byte-wise lexicographic order
//! of the UTF-8 encoding, which is the order of `str` in Rust.

use vstd::prelude::*;
use vstd::string::StringExecFns;
use vstd::string::StringSliceAdditionalSpecFns;
use vstd::utf8::decode_utf8;
use vstd::utf8::encode_utf8;
use vstd::utf8::encode_utf8_decode_utf8;
use vstd::utf8::valid_utf8;

verus! {

/// Lexicographic "less than" of `a` and `b`, looking only at positions from
/// `i` on.
pub open spec fn bytes_lt_from(a: Seq<u8>, b: Seq<u8>, i: int) -> bool
    decreases a.len() - i,
{
    if i >= a.len() {
        i < b.len()
    } else if i >= b.len() {
        false
    } else if a[i] == b[i] {
        bytes_lt_from(a, b, i + 1)
    } else {
        a[i] < b[i]
    }
}

/// Lexicographic "less than" on byte strings: a proper prefix comes first,
/// otherwise the first differing byte decides.
pub open spec fn bytes_lt(a: Seq<u8>, b: Seq<u8>) -> bool {
    bytes_lt_from(a, b, 0)
}

/// The order of two texts: that of their UTF-8 encodings.
pub open spec fn str_lt(a: Seq<char>, b: Seq<char>) -> bool {
    bytes_lt(encode_utf8(a), encode_utf8(b))
}

proof fn lemma_lt_from_irreflexive(a: Seq<u8>, i: int)
    requires
        0 <= i,
    ensures
        !bytes_lt_from(a, a, i),
    decreases a.len() - i,
{
    if i < a.len() {
        lemma_lt_from_irreflexive(a, i + 1);
    }
}

proof fn lemma_lt_from_transitive(a: Seq<u8>, b: Seq<u8>, c: Seq<u8>, i: int)
    requires
        0 <= i,
        bytes_lt_from(a, b, i),
        bytes_lt_from(b, c, i),
    ensures
        bytes_lt_from(a, c, i),
    decreases a.len() - i,
{
    if i < a.len() && i < b.len() && i < c.len() && a[i] == b[i] && b[i] == c[i] {
        lemma_lt_from_transitive(a, b, c, i + 1);
    }
}

proof fn lemma_lt_from_total(a: Seq<u8>, b: Seq<u8>, i: int)
    requires
        0 <= i <= a.len(),
        i <= b.len(),
        a.subrange(0, i) == b.subrange(0, i),
        a != b,
    ensures
        bytes_lt_from(a, b, i) || bytes_lt_from(b, a, i),
    decreases a.len() - i,
{
    if i < a.len() && i < b.len() {
        if a[i] == b[i] {
            assert(a.subrange(0, i + 1) == b.subrange(0, i + 1)) by {
                assert(a.subrange(0, i + 1) =~= a.subrange(0, i).push(a[i]));
                assert(b.subrange(0, i + 1) =~= b.subrange(0, i).push(b[i]));
            }
            lemma_lt_from_total(a, b, i + 1);
        }
    } else if i == a.len() && i == b.len() {
        assert(a =~= a.subrange(0, i));
        assert(b =~= b.subrange(0, i));
    }
}

/// No byte string comes before itself.
pub proof fn lemma_bytes_lt_irreflexive(a: Seq<u8>)
    ensures
        !bytes_lt(a, a),
{
    lemma_lt_from_irreflexive(a, 0);
}

/// The order on byte strings is transitive.
pub proof fn lemma_bytes_lt_transitive(a: Seq<u8>, b: Seq<u8>, c: Seq<u8>)
    requires
        bytes_lt(a, b),
        bytes_lt(b, c),
    ensures
        bytes_lt(a, c),
{
    lemma_lt_from_transitive(a, b, c, 0);
}

/// Of two different byte strings one comes before the other.
pub proof fn lemma_bytes_lt_total(a: Seq<u8>, b: Seq<u8>)
    ensures
        a == b || bytes_lt(a, b) || bytes_lt(b, a),
{
    if a != b {
        assert(a.subrange(0, 0) =~= b.subrange(0, 0));
        lemma_lt_from_total(a, b, 0);
    }
}

/// Different texts have different encodings.
pub proof fn lemma_encoding_injective(a: Seq<char>, b: Seq<char>)
    requires
        encode_utf8(a) == encode_utf8(b),
    ensures
        a == b,
{
    encode_utf8_decode_utf8(a);
    encode_utf8_decode_utf8(b);
}

/// Texts written one behind the other, with a separator between them.
pub open spec fn joined_texts(parts: Seq<Seq<char>>, separator: Seq<char>) -> Seq<char>
    decreases parts.len(),
{
    if parts.len() == 0 {
        Seq::empty()
    } else if parts.len() == 1 {
        parts[0]
    } else {
        joined_texts(parts.drop_last(), separator) + separator + parts.last()
    }
}

/// Texts written one behind the other, with a separator between them.
pub fn join_texts(parts: &Vec<String>, separator: &str) -> (r: String)
    ensures
        r@ == joined_texts(parts.deep_view(), separator@),
{
    let ghost all = parts.deep_view();
    let mut r = String::new();
    let mut i: usize = 0;
    assert(all.take(0) =~= Seq::empty());
    while i < parts.len()
        invariant
            0 <= i <= parts.len(),
            all == parts.deep_view(),
            r@ == joined_texts(all.take(i as int), separator@),
        decreases parts.len() - i,
    {
        proof {
            assert(all.take(i + 1).drop_last() =~= all.take(i as int));
            assert(all.take(i + 1).last() == parts[i as int]@);
        }
        if i > 0 {
            r.append(separator);
        }
        r.append(parts[i].as_str());
        proof {
            if i == 0 {
                assert(r@ =~= parts[i as int]@);
            }
        }
        i += 1;
    }
    assert(all.take(i as int) =~= all);
    r
}

/// The order on byte strings is a strict total order.
pub proof fn lemma_bytes_lt_orders(a: Seq<u8>, b: Seq<u8>, c: Seq<u8>)
    ensures
        !bytes_lt(a, a),
        bytes_lt(a, b) && bytes_lt(b, c) ==> bytes_lt(a, c),
        a == b || bytes_lt(a, b) || bytes_lt(b, a),
{
    lemma_bytes_lt_irreflexive(a);
    lemma_bytes_lt_total(a, b);
    if bytes_lt(a, b) && bytes_lt(b, c) {
        lemma_bytes_lt_transitive(a, b, c);
    }
}

/// Whether `a` comes strictly before `b` in lexicographic byte order.
pub fn bytes_less(a: &[u8], b: &[u8]) -> (r: bool)
    ensures
        r == bytes_lt(a@, b@),
{
    let mut i: usize = 0;
    while i < a.len() && i < b.len()
        invariant
            0 <= i <= a.len(),
            i <= b.len(),
            bytes_lt(a@, b@) == bytes_lt_from(a@, b@, i as int),
        decreases a.len() - i,
    {
        if a[i] != b[i] {
            return a[i] < b[i];
        }
        i += 1;
    }
    a.len() < b.len()
}

/// Whether `a` and `b` hold the same bytes.
pub fn bytes_equal(a: &[u8], b: &[u8]) -> (r: bool)
    ensures
        r == (a@ == b@),
{
    if a.len() != b.len() {
        return false;
    }
    let mut i: usize = 0;
    while i < a.len()
        invariant
            0 <= i <= a.len(),
            a.len() == b.len(),
            a@.subrange(0, i as int) == b@.subrange(0, i as int),
        decreases a.len() - i,
    {
        if a[i] != b[i] {
            return false;
        }
        assert(a@.subrange(0, i + 1) =~= a@.subrange(0, i as int).push(a@[i as int]));
        assert(b@.subrange(0, i + 1) =~= b@.subrange(0, i as int).push(b@[i as int]));
        i += 1;
    }
    assert(a@ =~= a@.subrange(0, i as int));
    assert(b@ =~= b@.subrange(0, i as int));
    true
}

/// Whether the text `a` comes strictly before the text `b`.
pub fn str_less(a: &str, b: &str) -> (r: bool)
    ensures
        r == str_lt(a@, b@),
{
    bytes_less(a.as_bytes(), b.as_bytes())
}

/// Whether `a` and `b` are the same text.
pub fn str_equal(a: &str, b: &str) -> (r: bool)
    ensures
        r == (a@ == b@),
{
    let r = bytes_equal(a.as_bytes(), b.as_bytes());
    proof {
        if r {
            lemma_encoding_injective(a@, b@);
        }
    }
    r
}

/// Calls `String::from_utf8`, which accepts exactly the byte strings that
/// are UTF-8 and gives the text that they encode.
#[verifier::external_body]
pub(crate) fn string_from_utf8(bytes: Vec<u8>) -> (r: Option<String>)
    ensures
        r is Some <==> valid_utf8(bytes@),
        r matches Some(text) ==> text@ == decode_utf8(bytes@),
{
    match String::from_utf8(bytes) {
        Ok(text) => Some(text),
        Err(_) => None,
    }
}

/// The line that the end of `bytes` is in: what follows the last line feed.
pub open spec fn open_line(bytes: Seq<u8>) -> Seq<u8>
    decreases bytes.len(),
{
    if bytes.len() == 0 || bytes.last() == 0x0A {
        Seq::empty()
    } else {
        open_line(bytes.drop_last()).push(bytes.last())
    }
}

/// A line without the carriage return at its end, if it has one.
pub open spec fn without_return(line: Seq<u8>) -> Seq<u8> {
    if line.len() > 0 && line.last() == 0x0D {
        line.drop_last()
    } else {
        line
    }
}

/// The lines of `bytes` that a line feed ends, each without the line feed
/// and without a carriage return before it.
pub open spec fn closed_lines(bytes: Seq<u8>) -> Seq<Seq<u8>>
    decreases bytes.len(),
{
    if bytes.len() == 0 {
        Seq::empty()
    } else if bytes.last() == 0x0A {
        closed_lines(bytes.drop_last()).push(without_return(open_line(bytes.drop_last())))
    } else {
        closed_lines(bytes.drop_last())
    }
}

/// The lines of `bytes`: those that a line feed ends, and what follows the
/// last line feed where that is not empty.
pub open spec fn byte_lines(bytes: Seq<u8>) -> Seq<Seq<u8>> {
    if open_line(bytes).len() > 0 {
        closed_lines(bytes).push(open_line(bytes))
    } else {
        closed_lines(bytes)
    }
}

/// Every line is UTF-8.
pub open spec fn all_text(lines: Seq<Seq<u8>>) -> bool {
    forall|i: int| 0 <= i < lines.len() ==> valid_utf8(#[trigger] lines[i])
}

/// The text of each line.
pub open spec fn decoded(lines: Seq<Seq<u8>>) -> Seq<Seq<char>> {
    Seq::new(lines.len(), |i: int| decode_utf8(lines[i]))
}

/// The lines of a file as text; `None` where a line is not UTF-8.
pub open spec fn text_lines(bytes: Seq<u8>) -> Option<Seq<Seq<char>>> {
    if all_text(byte_lines(bytes)) {
        Some(decoded(byte_lines(bytes)))
    } else {
        None
    }
}

/// One more line is text exactly where the lines before it and the line
/// itself are, and is decoded behind them.
proof fn lemma_one_more_line(earlier: Seq<Seq<u8>>, line: Seq<u8>)
    ensures
        all_text(earlier.push(line)) == (all_text(earlier) && valid_utf8(line)),
        decoded(earlier.push(line)) == decoded(earlier).push(decode_utf8(line)),
{
    let raw = earlier.push(line);
    if all_text(earlier) && valid_utf8(line) {
        assert forall|k: int| 0 <= k < raw.len() implies valid_utf8(#[trigger] raw[k]) by {
            if k < earlier.len() {
                assert(raw[k] == earlier[k]);
            }
        }
    }
    if all_text(raw) {
        assert(raw[raw.len() - 1] == line);
        assert forall|k: int| 0 <= k < earlier.len() implies valid_utf8(#[trigger] earlier[k]) by {
            assert(raw[k] == earlier[k]);
        }
    }
    assert(decoded(raw) =~= decoded(earlier).push(decode_utf8(line)));
}

/// The lines of a file as text; `None` where a line is not UTF-8.
pub fn lines_of(bytes: &Vec<u8>) -> (r: Option<Vec<String>>)
    ensures
        r.deep_view() == text_lines(bytes@),
{
    let mut lines: Vec<String> = Vec::new();
    let mut current: Vec<u8> = Vec::new();
    let mut valid: bool = true;
    let ghost mut raw: Seq<Seq<u8>> = Seq::empty();
    let mut i: usize = 0;
    assert(bytes@.take(0) =~= Seq::empty());
    assert(lines.deep_view() =~= decoded(raw));
    while i < bytes.len()
        invariant
            0 <= i <= bytes.len(),
            raw == closed_lines(bytes@.take(i as int)),
            current@ == open_line(bytes@.take(i as int)),
            valid == all_text(raw),
            valid ==> lines.deep_view() == decoded(raw),
        decreases bytes.len() - i,
    {
        let b = bytes[i];
        let ghost before = bytes@.take(i as int);
        let ghost after = bytes@.take(i + 1);
        assert(after.drop_last() =~= before);
        assert(after.last() == b);
        if b == 0x0A {
            if current.len() > 0 && current[current.len() - 1] == 0x0D {
                let ghost whole = current@;
                current.pop();
                assert(current@ =~= whole.drop_last());
            }
            let ghost line = current@;
            let ghost shown = lines.deep_view();
            let ghost earlier = raw;
            assert(line == without_return(open_line(before)));
            let mut taken: Vec<u8> = Vec::new();
            std::mem::swap(&mut taken, &mut current);
            match string_from_utf8(taken) {
                Some(text) => {
                    if valid {
                        lines.push(text);
                    }
                },
                None => {
                    valid = false;
                },
            }
            proof {
                raw = raw.push(line);
                lemma_one_more_line(earlier, line);
                if valid {
                    assert(lines.deep_view() =~= shown.push(decode_utf8(line)));
                }
            }
        } else {
            current.push(b);
        }
        i += 1;
    }
    assert(bytes@.take(i as int) =~= bytes@);
    if current.len() > 0 {
        let ghost line = current@;
        let ghost shown = lines.deep_view();
        let ghost earlier = raw;
        match string_from_utf8(current) {
            Some(text) => {
                if valid {
                    lines.push(text);
                }
            },
            None => {
                valid = false;
            },
        }
        proof {
            raw = raw.push(line);
            assert(raw == byte_lines(bytes@));
            lemma_one_more_line(earlier, line);
            if valid {
                assert(lines.deep_view() =~= shown.push(decode_utf8(line)));
            }
        }
    }
    if valid {
        Some(lines)
    } else {
        None
    }
}

} // verus!
