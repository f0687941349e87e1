//! Character-level helpers shared by the validators: decoding bytes as
//! UTF-8, splitting on a separator, trimming line ends, and rendering numbers.

use vstd::prelude::*;
use vstd::string::StringExecFns;
use vstd::string::StringSliceAdditionalSpecFns;
use vstd::utf8::*;

verus! {

broadcast use vstd::string::group_string_axioms;

/// `c` ends a line: a line feed or a carriage return.
pub open spec fn is_line_end(c: char) -> bool {
    c == '\n' || c == '\r'
}

/// `s` without the line feeds and carriage returns that end it, as
/// `str::trim_end_matches(['\n', '\r'])` leaves it.
pub open spec fn trim_line_ends(s: Seq<char>) -> Seq<char>
    decreases s.len(),
{
    if s.len() > 0 && is_line_end(s.last()) {
        trim_line_ends(s.drop_last())
    } else {
        s
    }
}

/// `b` is a line feed or carriage return byte.
pub open spec fn is_line_end_byte(b: u8) -> bool {
    b == 10 || b == 13
}

/// `bytes` without the line feed and carriage return bytes that end them.
pub open spec fn trim_line_end_bytes(bytes: Seq<u8>) -> Seq<u8>
    decreases bytes.len(),
{
    if bytes.len() > 0 && is_line_end_byte(bytes.last()) {
        trim_line_end_bytes(bytes.drop_last())
    } else {
        bytes
    }
}

/// The pieces of `s` between occurrences of `sep`, in order, as `str::split`
/// yields them: one more piece than there are separators, empty pieces
/// included.
pub open spec fn split_on(s: Seq<char>, sep: char) -> Seq<Seq<char>>
    decreases s.len(),
{
    if s.len() == 0 {
        seq![Seq::<char>::empty()]
    } else {
        let init = split_on(s.drop_last(), sep);
        if s.last() == sep {
            init.push(Seq::<char>::empty())
        } else {
            init.update(init.len() - 1, init.last().push(s.last()))
        }
    }
}

/// There is always at least one piece, and never more than one per character
/// plus one.
pub proof fn lemma_split_on_len(s: Seq<char>, sep: char)
    ensures
        1 <= split_on(s, sep).len() <= s.len() + 1,
    decreases s.len(),
{
    if s.len() > 0 {
        lemma_split_on_len(s.drop_last(), sep);
    }
}

/// Appending characters to `s` leaves every piece of `s` but the last alone.
pub proof fn lemma_split_on_extends(s: Seq<char>, t: Seq<char>, sep: char)
    ensures
        split_on(s + t, sep).len() >= split_on(s, sep).len(),
        forall|j: int|
            0 <= j < split_on(s, sep).len() - 1 ==> #[trigger] split_on(s + t, sep)[j] == split_on(
                s,
                sep,
            )[j],
    decreases t.len(),
{
    lemma_split_on_len(s, sep);
    if t.len() == 0 {
        assert(s + t =~= s);
    } else {
        let u = s + t.drop_last();
        lemma_split_on_extends(s, t.drop_last(), sep);
        assert((s + t).drop_last() =~= u);
        lemma_split_on_len(u, sep);
    }
}

/// A leading separator splits off an empty first piece, and leaves the
/// pieces of what follows it.
pub proof fn lemma_split_on_leading_sep(rest: Seq<char>, sep: char)
    ensures
        split_on(seq![sep] + rest, sep) == seq![Seq::<char>::empty()] + split_on(rest, sep),
    decreases rest.len(),
{
    let s = seq![sep] + rest;
    if rest.len() == 0 {
        assert(s.drop_last() =~= Seq::<char>::empty());
        assert(s.last() == sep);
        assert(split_on(s.drop_last(), sep) == seq![Seq::<char>::empty()]);
        assert(split_on(s, sep) == seq![Seq::<char>::empty()].push(Seq::<char>::empty()));
        assert(split_on(s, sep) =~= seq![Seq::<char>::empty()] + split_on(rest, sep));
    } else {
        assert(s.drop_last() =~= seq![sep] + rest.drop_last());
        lemma_split_on_leading_sep(rest.drop_last(), sep);
        lemma_split_on_len(rest.drop_last(), sep);
        let x = split_on(rest.drop_last(), sep);
        let y = seq![Seq::<char>::empty()] + x;
        assert(split_on(seq![sep] + rest.drop_last(), sep) == y);
        assert(s.last() == rest.last());
        if rest.last() == sep {
            assert(split_on(s, sep) == y.push(Seq::<char>::empty()));
            assert(split_on(rest, sep) == x.push(Seq::<char>::empty()));
            assert(y.push(Seq::<char>::empty()) =~= seq![Seq::<char>::empty()] + x.push(
                Seq::<char>::empty(),
            ));
        } else {
            assert(y.last() == x.last());
            assert(split_on(s, sep) == y.update(y.len() - 1, y.last().push(rest.last())));
            assert(split_on(rest, sep) == x.update(x.len() - 1, x.last().push(rest.last())));
            assert(y.update(y.len() - 1, y.last().push(rest.last())) =~= seq![Seq::<char>::empty()]
                + x.update(x.len() - 1, x.last().push(rest.last())));
        }
    }
}

/// Trimming keeps a prefix of `s`, after which every character ends a line,
/// and whose own last character, if any, does not.
pub proof fn lemma_trim_line_ends_prefix(s: Seq<char>)
    ensures
        trim_line_ends(s).len() <= s.len(),
        trim_line_ends(s) == s.take(trim_line_ends(s).len() as int),
        forall|i: int| trim_line_ends(s).len() <= i < s.len() ==> is_line_end(#[trigger] s[i]),
        trim_line_ends(s).len() > 0 ==> !is_line_end(trim_line_ends(s).last()),
    decreases s.len(),
{
    if s.len() > 0 && is_line_end(s.last()) {
        lemma_trim_line_ends_prefix(s.drop_last());
        let t = trim_line_ends(s.drop_last());
        assert(s.drop_last().take(t.len() as int) =~= s.take(t.len() as int));
        assert forall|i: int| t.len() <= i < s.len() implies is_line_end(#[trigger] s[i]) by {
            if i < s.len() - 1 {
                assert(s[i] == s.drop_last()[i]);
            }
        }
    } else {
        assert(s.take(s.len() as int) =~= s);
    }
}

/// Where every byte from `k` on ends a line and the byte before `k`, if any,
/// does not, trimming the line end bytes keeps the first `k`.
pub proof fn lemma_trim_line_end_bytes_at(bytes: Seq<u8>, k: nat)
    requires
        k <= bytes.len(),
        forall|i: int| k <= i < bytes.len() ==> is_line_end_byte(#[trigger] bytes[i]),
        k > 0 ==> !is_line_end_byte(bytes[k - 1]),
    ensures
        trim_line_end_bytes(bytes) == bytes.take(k as int),
    decreases bytes.len(),
{
    if bytes.len() > k {
        let init = bytes.drop_last();
        assert forall|i: int| k <= i < init.len() implies is_line_end_byte(#[trigger] init[i]) by {
            assert(init[i] == bytes[i]);
        }
        lemma_trim_line_end_bytes_at(init, k);
        assert(init.take(k as int) =~= bytes.take(k as int));
    } else {
        assert(bytes.take(k as int) =~= bytes);
        if k > 0 {
            assert(bytes.last() == bytes[k - 1]);
        }
    }
}

/// Characters that are all ASCII encode as one byte each, of the same value.
pub proof fn lemma_encode_ascii(chars: Seq<char>)
    requires
        forall|i: int| 0 <= i < chars.len() ==> (#[trigger] chars[i] as u32) < 128,
    ensures
        encode_utf8(chars).len() == chars.len(),
        forall|i: int| 0 <= i < chars.len() ==> #[trigger] encode_utf8(chars)[i] as u32 == chars[i] as u32,
    decreases chars.len(),
{
    if chars.len() > 0 {
        let rest = chars.drop_first();
        assert forall|i: int| 0 <= i < rest.len() implies (#[trigger] rest[i] as u32) < 128 by {
            assert(rest[i] == chars[i + 1]);
        }
        lemma_encode_ascii(rest);
        let v = chars[0] as u32;
        assert(v < 128);
        assert((v & 0x7F) as u8 as u32 == v) by (bit_vector)
            requires
                v < 128,
        ;
        let bytes = encode_utf8(chars);
        assert(bytes == seq![leading_byte_width_1(v)] + encode_utf8(rest));
        assert forall|i: int| 0 <= i < chars.len() implies #[trigger] bytes[i] as u32 == chars[i] as u32 by {
            if i > 0 {
                assert(bytes[i] == encode_utf8(rest)[i - 1]);
                assert(rest[i - 1] == chars[i]);
            }
        }
    }
}

/// The decimal digit for `d`.
pub open spec fn digit_char(d: nat) -> char {
    if d == 0 {
        '0'
    } else if d == 1 {
        '1'
    } else if d == 2 {
        '2'
    } else if d == 3 {
        '3'
    } else if d == 4 {
        '4'
    } else if d == 5 {
        '5'
    } else if d == 6 {
        '6'
    } else if d == 7 {
        '7'
    } else if d == 8 {
        '8'
    } else {
        '9'
    }
}

/// `n` written in decimal, without leading zeros, as `{}` formats it.
pub open spec fn decimal(n: nat) -> Seq<char>
    decreases n,
{
    if n < 10 {
        seq![digit_char(n)]
    } else {
        decimal(n / 10) + seq![digit_char(n % 10)]
    }
}

/// Decodes `bytes` as UTF-8, through `std::str::from_utf8`.
///
/// Trusted: `std::str::from_utf8` succeeds exactly when the bytes are valid
/// UTF-8 (vstd's `valid_utf8`), and then yields the string slice whose bytes
/// are the given ones.
#[verifier::external_body]
pub(crate) fn str_from_utf8(bytes: &[u8]) -> (decoded: Option<&str>)
    ensures
        decoded is Some <==> valid_utf8(bytes@),
        decoded matches Some(s) ==> s.spec_bytes() == bytes@,
{
    std::str::from_utf8(bytes).ok()
}

/// Decodes `bytes` as UTF-8 into its characters, or `None` if they are not
/// valid UTF-8.
pub fn decode_chars(bytes: &[u8]) -> (chars: Option<Vec<char>>)
    ensures
        chars is Some <==> valid_utf8(bytes@),
        chars matches Some(cs) ==> cs@ == decode_utf8(bytes@),
{
    match str_from_utf8(bytes) {
        None => None,
        Some(s) => {
            proof {
                encode_utf8_decode_utf8(s@);
            }
            Some(chars_of(s))
        },
    }
}

/// Whether two strings hold the same characters.
pub fn str_eq(a: &str, b: &str) -> (same: bool)
    ensures
        same == (a@ == b@),
{
    let x = chars_of(a);
    let y = chars_of(b);
    if x.len() != y.len() {
        return false;
    }
    let mut i: usize = 0;
    while i < x.len()
        invariant
            x@ == a@,
            y@ == b@,
            x@.len() == y@.len(),
            i <= x@.len(),
            forall|j: int| 0 <= j < i ==> x@[j] == y@[j],
        decreases x@.len() - i,
    {
        if x[i] != y[i] {
            return false;
        }
        i = i + 1;
    }
    assert(x@ =~= y@);
    true
}

/// The characters of `s`, in order.
pub fn chars_of(s: &str) -> (chars: Vec<char>)
    ensures
        chars@ == s@,
{
    let mut chars: Vec<char> = Vec::new();
    for c in it: s.chars()
        invariant
            it.seq() == s@,
            chars.len() == it.index(),
            chars@ == s@.take(chars.len() as int),
    {
        proof {
            assert(it.seq().take(it.index() + 1) =~= it.seq().take(it.index() as int).push(c));
        }
        chars.push(c);
    }
    assert(chars@ =~= s@.take(chars.len() as int));
    assert(s@.take(chars.len() as int) =~= s@);
    chars
}

/// How many characters of `s` remain once the line ends that end it are
/// trimmed.
pub fn trimmed_len(s: &Vec<char>) -> (len: usize)
    ensures
        len <= s@.len(),
        trim_line_ends(s@) == s@.take(len as int),
{
    let mut len = s.len();
    assert(s@.take(len as int) =~= s@);
    while len > 0 && (s[len - 1] == '\n' || s[len - 1] == '\r')
        invariant
            len <= s@.len(),
            trim_line_ends(s@) == trim_line_ends(s@.take(len as int)),
        decreases len,
    {
        assert(s@.take(len as int).drop_last() =~= s@.take(len - 1));
        len = len - 1;
    }
    len
}

/// How many bytes remain once the line ends that end `bytes` are trimmed.
pub fn trimmed_byte_len(bytes: &[u8]) -> (len: usize)
    ensures
        len <= bytes@.len(),
        trim_line_end_bytes(bytes@) == bytes@.take(len as int),
{
    let mut len = bytes.len();
    assert(bytes@.take(len as int) =~= bytes@);
    while len > 0 && (bytes[len - 1] == 10 || bytes[len - 1] == 13)
        invariant
            len <= bytes@.len(),
            trim_line_end_bytes(bytes@) == trim_line_end_bytes(bytes@.take(len as int)),
        decreases len,
    {
        assert(bytes@.take(len as int).drop_last() =~= bytes@.take(len - 1));
        len = len - 1;
    }
    len
}

/// Whether `bytes` are valid UTF-8.
pub fn is_utf8(bytes: &[u8]) -> (valid: bool)
    ensures
        valid == valid_utf8(bytes@),
{
    str_from_utf8(bytes).is_some()
}

/// The pieces of `s` between occurrences of `sep`.
pub fn split_chars(s: &[char], sep: char) -> (pieces: Vec<Vec<char>>)
    ensures
        pieces@.map_values(|p: Vec<char>| p@) == split_on(s@, sep),
{
    let mut pieces: Vec<Vec<char>> = Vec::new();
    let mut current: Vec<char> = Vec::new();
    let mut i: usize = 0;
    assert(s@.take(0) =~= Seq::<char>::empty());
    while i < s.len()
        invariant
            i <= s@.len(),
            pieces@.map_values(|p: Vec<char>| p@).push(current@) == split_on(s@.take(i as int), sep),
        decreases s@.len() - i,
    {
        let c = s[i];
        let ghost before = pieces@.map_values(|p: Vec<char>| p@);
        assert(s@.take(i + 1).drop_last() =~= s@.take(i as int));
        assert(s@.take(i + 1).last() == c);
        if c == sep {
            pieces.push(current);
            current = Vec::new();
            assert(pieces@.map_values(|p: Vec<char>| p@) =~= before.push(
                split_on(s@.take(i as int), sep).last(),
            ));
        } else {
            current.push(c);
            assert(pieces@.map_values(|p: Vec<char>| p@) =~= before);
        }
        i = i + 1;
        assert(pieces@.map_values(|p: Vec<char>| p@).push(current@) =~= split_on(
            s@.take(i as int),
            sep,
        ));
    }
    assert(s@.take(i as int) =~= s@);
    pieces.push(current);
    assert(pieces@.map_values(|p: Vec<char>| p@) =~= split_on(s@, sep));
    pieces
}

/// All of `s` but its first character.
pub fn tail(s: &Vec<char>) -> (rest: Vec<char>)
    requires
        s@.len() > 0,
    ensures
        rest@ == s@.drop_first(),
{
    let mut rest: Vec<char> = Vec::new();
    let mut i: usize = 1;
    while i < s.len()
        invariant
            1 <= i <= s@.len(),
            rest@ == s@.subrange(1, i as int),
        decreases s@.len() - i,
    {
        rest.push(s[i]);
        i = i + 1;
        assert(rest@ =~= s@.subrange(1, i as int));
    }
    assert(rest@ =~= s@.drop_first());
    rest
}

/// The one-character string holding the decimal digit `d`.
fn digit_str(d: u64) -> (digit: &'static str)
    requires
        d < 10,
    ensures
        digit@ == seq![digit_char(d as nat)],
{
    if d == 0 {
        proof {
            reveal_strlit("0");
        }
        "0"
    } else if d == 1 {
        proof {
            reveal_strlit("1");
        }
        "1"
    } else if d == 2 {
        proof {
            reveal_strlit("2");
        }
        "2"
    } else if d == 3 {
        proof {
            reveal_strlit("3");
        }
        "3"
    } else if d == 4 {
        proof {
            reveal_strlit("4");
        }
        "4"
    } else if d == 5 {
        proof {
            reveal_strlit("5");
        }
        "5"
    } else if d == 6 {
        proof {
            reveal_strlit("6");
        }
        "6"
    } else if d == 7 {
        proof {
            reveal_strlit("7");
        }
        "7"
    } else if d == 8 {
        proof {
            reveal_strlit("8");
        }
        "8"
    } else {
        proof {
            reveal_strlit("9");
        }
        "9"
    }
}

/// Appends `n` in decimal to `out`.
pub fn push_decimal(out: &mut String, n: u64)
    ensures
        final(out)@ == old(out)@ + decimal(n as nat),
    decreases n,
{
    if n >= 10 {
        push_decimal(out, n / 10);
    }
    out.append(digit_str(n % 10));
    proof {
        assert(old(out)@ + decimal(n as nat) =~= if n < 10 {
            old(out)@ + seq![digit_char(n as nat)]
        } else {
            (old(out)@ + decimal((n / 10) as nat)) + seq![digit_char((n % 10) as nat)]
        });
    }
}

/// `i` is the position of the first piece of `pieces` that `fault` holds of.
pub open spec fn is_first_where(pieces: Seq<Seq<char>>, fault: spec_fn(Seq<char>) -> bool, i: int) -> bool {
    &&& 0 <= i < pieces.len()
    &&& fault(pieces[i])
    &&& forall|j: int| 0 <= j < i ==> !fault(#[trigger] pieces[j])
}

/// The position of the first piece of `pieces` that `fault` holds of, if any.
pub open spec fn first_where(pieces: Seq<Seq<char>>, fault: spec_fn(Seq<char>) -> bool) -> Option<int> {
    if exists|i: int| is_first_where(pieces, fault, i) {
        Some(choose|i: int| is_first_where(pieces, fault, i))
    } else {
        None
    }
}

/// Where some piece is at fault, there is a first one at fault.
pub proof fn lemma_first_where_found(pieces: Seq<Seq<char>>, fault: spec_fn(Seq<char>) -> bool, i: int)
    requires
        0 <= i < pieces.len(),
        fault(pieces[i]),
    ensures
        first_where(pieces, fault) is Some,
    decreases i,
{
    if exists|j: int| 0 <= j < i && fault(#[trigger] pieces[j]) {
        let j = choose|j: int| 0 <= j < i && fault(#[trigger] pieces[j]);
        lemma_first_where_found(pieces, fault, j);
    } else {
        assert(is_first_where(pieces, fault, i));
    }
}

/// Only one position is the first one at fault, and when none is at fault
/// there is no first one.
pub proof fn lemma_first_where(pieces: Seq<Seq<char>>, fault: spec_fn(Seq<char>) -> bool, i: int)
    ensures
        is_first_where(pieces, fault, i) ==> first_where(pieces, fault) == Some(i),
        (forall|j: int| 0 <= j < pieces.len() ==> !fault(#[trigger] pieces[j])) ==> first_where(
            pieces,
            fault,
        ) is None,
{
    if is_first_where(pieces, fault, i) {
        let k = choose|k: int| is_first_where(pieces, fault, k);
        if k < i {
            assert(!fault(pieces[k]));
        } else if k > i {
            assert(!fault(pieces[i]));
        }
    }
    if forall|j: int| 0 <= j < pieces.len() ==> !fault(#[trigger] pieces[j]) {
        if exists|k: int| is_first_where(pieces, fault, k) {
            let k = choose|k: int| is_first_where(pieces, fault, k);
            assert(!fault(pieces[k]));
        }
    }
}

} // verus!
