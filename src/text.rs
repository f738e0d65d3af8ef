//! Splitting text into lines and fields, and reading decimal numbers.
use vstd::prelude::*;

verus! {

/// `head` and `tail` are what lies before and after the first `sep` of `s`.
pub open spec fn is_first_split(s: Seq<char>, sep: char, head: Seq<char>, tail: Seq<char>) -> bool {
    s == head + seq![sep] + tail && !head.contains(sep)
}

/// The pieces of `s` between occurrences of `sep`, at most `n` of them: the last
/// piece keeps the rest of the text, separators included.
pub open spec fn split_n(s: Seq<char>, sep: char, n: nat) -> Seq<Seq<char>>
    decreases n,
{
    if n == 0 {
        seq![]
    } else if n == 1 || !s.contains(sep) {
        seq![s]
    } else {
        let (head, tail) = choose|h: Seq<char>, t: Seq<char>| is_first_split(s, sep, h, t);
        seq![head] + split_n(tail, sep, (n - 1) as nat)
    }
}

/// Every piece of `s` between occurrences of `sep`. A text with `k` separators has
/// `k + 1` pieces, so a bound of its length plus one never cuts it short.
pub open spec fn split_all(s: Seq<char>, sep: char) -> Seq<Seq<char>> {
    split_n(s, sep, s.len() + 1)
}

/// A line without the carriage return of a `\r\n` ending.
pub open spec fn strip_cr(s: Seq<char>) -> Seq<char> {
    if s.len() > 0 && s.last() == '\r' {
        s.drop_last()
    } else {
        s
    }
}

/// The lines of a text: split at `\n`, a line that ended in `\r\n` loses its `\r`,
/// and a text that ends with a line ending (or is empty) has no empty last line.
pub open spec fn lines_of(s: Seq<char>) -> Seq<Seq<char>> {
    let pieces = split_all(s, '\n');
    let n = pieces.len();
    let body = Seq::new((n - 1) as nat, |i: int| strip_cr(pieces[i]));
    if pieces[n - 1].len() == 0 {
        body
    } else {
        body.push(pieces[n - 1])
    }
}

pub open spec fn is_digit(c: char) -> bool {
    '0' <= c && c <= '9'
}

/// The number that a sequence of decimal digits writes.
pub open spec fn digits_value(d: Seq<char>) -> nat
    decreases d.len(),
{
    if d.len() == 0 {
        0
    } else {
        digits_value(d.drop_last()) * 10 + ((d.last() as u32 - '0' as u32) as nat)
    }
}

/// The digits of a decimal number text: all of it, or all but a leading `+`.
pub open spec fn unsigned_digits(s: Seq<char>) -> Seq<char> {
    if s.len() > 0 && s[0] == '+' {
        s.skip(1)
    } else {
        s
    }
}

/// A 32-bit unsigned number written in decimal: an optional `+`, then one or more
/// digits, and nothing else; `None` where the text is no such number or the value
/// does not fit in 32 bits.
pub open spec fn parse_u32_spec(s: Seq<char>) -> Option<u32> {
    let d = unsigned_digits(s);
    if d.len() > 0 && (forall|i: int| 0 <= i < d.len() ==> is_digit(#[trigger] d[i]))
        && digits_value(d) <= u32::MAX {
        Some(digits_value(d) as u32)
    } else {
        None
    }
}

/// Relies on `str::split_once` with a `char` pattern: it splits around the first
/// occurrence of the character, and gives `None` where there is none.
#[verifier::external_body]
fn split_once_char(s: &str, sep: char) -> (r: Option<(&str, &str)>)
    ensures
        match r {
            None => !s@.contains(sep),
            Some((head, tail)) => is_first_split(s@, sep, head@, tail@),
        },
{
    s.split_once(sep)
}

/// Relies on `str::strip_suffix` with a `char` pattern: it removes one trailing
/// occurrence of the character, and gives `None` where the text does not end with it.
#[verifier::external_body]
fn strip_suffix_char(s: &str, c: char) -> (r: Option<&str>)
    ensures
        match r {
            None => !(s@.len() > 0 && s@.last() == c),
            Some(t) => s@ == t@.push(c),
        },
{
    s.strip_suffix(c)
}

/// A text has at most one first split around a separator.
pub proof fn lemma_first_split_unique(
    s: Seq<char>,
    sep: char,
    h1: Seq<char>,
    t1: Seq<char>,
    h2: Seq<char>,
    t2: Seq<char>,
)
    requires
        is_first_split(s, sep, h1, t1),
        is_first_split(s, sep, h2, t2),
    ensures
        h1 == h2,
        t1 == t2,
{
    if h1.len() < h2.len() {
        assert(s[h1.len() as int] == sep);
        assert(h2[h1.len() as int] == s[h1.len() as int]);
        assert(h2.contains(sep));
    } else if h2.len() < h1.len() {
        assert(s[h2.len() as int] == sep);
        assert(h1[h2.len() as int] == s[h2.len() as int]);
        assert(h1.contains(sep));
    }
    assert(h1 =~= s.take(h1.len() as int));
    assert(h2 =~= s.take(h2.len() as int));
    assert(t1 =~= s.skip(h1.len() as int + 1));
    assert(t2 =~= s.skip(h2.len() as int + 1));
}

/// Unfolds `split_n` at a known first separator.
pub proof fn lemma_split_n_step(s: Seq<char>, sep: char, n: nat, head: Seq<char>, tail: Seq<char>)
    requires
        n >= 2,
        is_first_split(s, sep, head, tail),
    ensures
        split_n(s, sep, n) == seq![head] + split_n(tail, sep, (n - 1) as nat),
{
    assert(s[head.len() as int] == sep);
    assert(s.contains(sep));
    let (h, t) = choose|h: Seq<char>, t: Seq<char>| is_first_split(s, sep, h, t);
    lemma_first_split_unique(s, sep, h, t, head, tail);
}

/// `split_n` gives at least one piece and at most `n`.
pub proof fn lemma_split_n_len(s: Seq<char>, sep: char, n: nat)
    requires
        n >= 1,
    ensures
        1 <= split_n(s, sep, n).len() <= n,
    decreases n,
{
    if n >= 2 && s.contains(sep) {
        let i = choose|i: int| 0 <= i < s.len() && s[i] == sep;
        lemma_first_index_exists(s, sep, i);
        let (h, t) = choose|h: Seq<char>, t: Seq<char>| is_first_split(s, sep, h, t);
        lemma_split_n_step(s, sep, n, h, t);
        lemma_split_n_len(t, sep, (n - 1) as nat);
    }
}

/// `split_n` with no separator in the text.
pub proof fn lemma_split_n_none(s: Seq<char>, sep: char, n: nat)
    requires
        n >= 1,
        !s.contains(sep),
    ensures
        split_n(s, sep, n) == seq![s],
{
}

/// Any bound above the text's length gives all of its pieces.
pub proof fn lemma_split_n_saturates(s: Seq<char>, sep: char, n: nat)
    requires
        n >= s.len() + 1,
    ensures
        split_n(s, sep, n) == split_all(s, sep),
    decreases s.len(),
{
    if s.contains(sep) {
        let (h, t) = choose|h: Seq<char>, t: Seq<char>| is_first_split(s, sep, h, t);
        let i = choose|i: int| 0 <= i < s.len() && s[i] == sep;
        assert(exists|h: Seq<char>, t: Seq<char>| is_first_split(s, sep, h, t)) by {
            lemma_first_index_exists(s, sep, i);
        }
        lemma_split_n_step(s, sep, n, h, t);
        lemma_split_n_step(s, sep, s.len() + 1, h, t);
        lemma_split_n_saturates(t, sep, (n - 1) as nat);
        lemma_split_n_saturates(t, sep, s.len());
    }
}

/// A text that holds `sep` has a first split around it.
pub proof fn lemma_first_index_exists(s: Seq<char>, sep: char, i: int)
    requires
        0 <= i < s.len(),
        s[i] == sep,
    ensures
        exists|h: Seq<char>, t: Seq<char>| is_first_split(s, sep, h, t),
    decreases i,
{
    if s.take(i).contains(sep) {
        let j = choose|j: int| 0 <= j < s.take(i).len() && s.take(i)[j] == sep;
        lemma_first_index_exists(s, sep, j);
    } else {
        assert(s =~= s.take(i) + seq![sep] + s.skip(i + 1));
        assert(is_first_split(s, sep, s.take(i), s.skip(i + 1)));
    }
}

/// `lines_of` at a first line ending.
pub proof fn lemma_lines_step(s: Seq<char>, head: Seq<char>, tail: Seq<char>)
    requires
        is_first_split(s, '\n', head, tail),
    ensures
        lines_of(s) == seq![strip_cr(head)] + lines_of(tail),
{
    lemma_split_n_step(s, '\n', s.len() + 1, head, tail);
    lemma_split_n_saturates(tail, '\n', s.len());
    lemma_split_all_nonempty(tail, '\n');
    assert(lines_of(s) =~= seq![strip_cr(head)] + lines_of(tail));
}

/// Every text has at least one piece.
pub proof fn lemma_split_all_nonempty(s: Seq<char>, sep: char)
    ensures
        split_all(s, sep).len() >= 1,
{
    if s.contains(sep) {
        let i = choose|i: int| 0 <= i < s.len() && s[i] == sep;
        lemma_first_index_exists(s, sep, i);
        let (h, t) = choose|h: Seq<char>, t: Seq<char>| is_first_split(s, sep, h, t);
        lemma_split_n_step(s, sep, s.len() + 1, h, t);
    }
}

/// Fields joined into one text, with `sep` between each two.
pub open spec fn join(fields: Seq<Seq<char>>, sep: char) -> Seq<char>
    decreases fields.len(),
{
    if fields.len() == 0 {
        seq![]
    } else if fields.len() == 1 {
        fields[0]
    } else {
        fields[0] + seq![sep] + join(fields.drop_first(), sep)
    }
}

/// Splitting joined fields, none of which but the last holds the separator, gives
/// them back: with room for all of them, and the last may hold the separator only
/// where the bound is exactly their number.
pub proof fn lemma_split_join(fields: Seq<Seq<char>>, sep: char, n: nat)
    requires
        fields.len() >= 1,
        n >= fields.len(),
        forall|i: int| 0 <= i < fields.len() - 1 ==> !(#[trigger] fields[i]).contains(sep),
        n == fields.len() || !fields.last().contains(sep),
    ensures
        split_n(join(fields, sep), sep, n) == fields,
        join(fields, sep).len() + 1 >= fields.len(),
    decreases fields.len(),
{
    if fields.len() == 1 {
        assert(fields =~= seq![fields[0]]);
    } else {
        let rest = fields.drop_first();
        assert(forall|i: int| 0 <= i < rest.len() - 1 ==> rest[i] == fields[i + 1]);
        assert(rest.last() == fields.last());
        lemma_split_join(rest, sep, (n - 1) as nat);
        assert(is_first_split(join(fields, sep), sep, fields[0], join(rest, sep)));
        lemma_split_n_step(join(fields, sep), sep, n, fields[0], join(rest, sep));
        assert(fields =~= seq![fields[0]] + rest);
    }
}

/// Splits a text into its lines, as `lines_of` states.
pub fn split_lines(s: &str) -> (r: Vec<&str>)
    ensures
        r@.map_values(|l: &str| l@) == lines_of(s@),
{
    let mut out: Vec<&str> = Vec::new();
    let mut rest: &str = s;
    loop
        invariant
            out@.map_values(|l: &str| l@) + lines_of(rest@) == lines_of(s@),
        decreases rest@.len(),
    {
        match split_once_char(rest, '\n') {
            Some((head, tail)) => {
                proof {
                    lemma_lines_step(rest@, head@, tail@);
                }
                let line = match strip_suffix_char(head, '\r') {
                    Some(t) => t,
                    None => head,
                };
                assert(line@ == strip_cr(head@)) by {
                    if head@.len() > 0 && head@.last() == '\r' {
                        assert(head@.drop_last() =~= line@);
                    }
                }
                out.push(line);
                assert(out@.map_values(|l: &str| l@) + lines_of(tail@) =~= lines_of(s@));
                rest = tail;
                assert((head@ + seq!['\n'] + tail@).len() > tail@.len());
            },
            None => {
                proof {
                    lemma_split_n_none(rest@, '\n', rest@.len() + 1);
                }
                assert(lines_of(rest@) =~= if rest@.len() == 0 {
                    Seq::<Seq<char>>::empty()
                } else {
                    seq![rest@]
                });
                if !rest.is_empty() {
                    out.push(rest);
                }
                assert(out@.map_values(|l: &str| l@) =~= lines_of(s@));
                return out;
            },
        }
    }
}

/// Splits `s` at `sep` into at most `n` pieces, as `split_n` states.
pub fn split_fields(s: &str, sep: char, n: usize) -> (r: Vec<&str>)
    requires
        n >= 1,
    ensures
        r@.map_values(|p: &str| p@) == split_n(s@, sep, n as nat),
{
    let mut out: Vec<&str> = Vec::new();
    let mut rest: &str = s;
    let mut left: usize = n;
    while left > 1
        invariant
            1 <= left <= n,
            out@.map_values(|p: &str| p@) + split_n(rest@, sep, left as nat) == split_n(s@, sep, n as nat),
        decreases left,
    {
        match split_once_char(rest, sep) {
            Some((head, tail)) => {
                proof {
                    lemma_split_n_step(rest@, sep, left as nat, head@, tail@);
                }
                out.push(head);
                assert(out@.map_values(|p: &str| p@) + split_n(tail@, sep, (left - 1) as nat)
                    =~= split_n(s@, sep, n as nat));
                rest = tail;
                left = left - 1;
            },
            None => {
                out.push(rest);
                assert(out@.map_values(|p: &str| p@) =~= split_n(s@, sep, n as nat));
                return out;
            },
        }
    }
    out.push(rest);
    assert(out@.map_values(|p: &str| p@) =~= split_n(s@, sep, n as nat));
    out
}

/// A longer run of digits writes no smaller number than its prefixes.
pub proof fn lemma_digits_value_prefix(d: Seq<char>, k: int)
    requires
        0 <= k <= d.len(),
    ensures
        digits_value(d.take(k)) <= digits_value(d),
    decreases d.len(),
{
    if k < d.len() {
        assert(d.drop_last().take(k) =~= d.take(k));
        lemma_digits_value_prefix(d.drop_last(), k);
    } else {
        assert(d.take(k) =~= d);
    }
}

/// Reads a 32-bit unsigned number written in decimal, as `parse_u32_spec` states.
pub fn parse_u32(s: &str) -> (r: Option<u32>)
    ensures
        r == parse_u32_spec(s@),
{
    let ghost d = unsigned_digits(s@);
    if !s.is_ascii() {
        proof {
            if parse_u32_spec(s@) is Some {
                assert(vstd::utf8::is_ascii_chars(s@)) by {
                    assert forall|i: int| 0 <= i < s@.len() implies '\0' <= #[trigger] s@[i]
                        <= '\u{7f}' by {
                        if s@.len() > 0 && s@[0] == '+' && i > 0 {
                            assert(d[i - 1] == s@[i]);
                            assert(is_digit(d[i - 1]));
                        } else if !(s@.len() > 0 && s@[0] == '+') {
                            assert(is_digit(d[i]));
                        }
                    }
                }
            }
        }
        return None;
    }
    let bytes = s.as_bytes();
    proof {
        vstd::utf8::is_ascii_chars_encode_utf8(s@);
    }
    let n = bytes.len();
    let mut i: usize = 0;
    if n > 0 && bytes[0] == 43u8 {
        i = 1;
    }
    let start = i;
    assert(d =~= s@.skip(start as int));
    if i == n {
        return None;
    }
    let mut value: u64 = 0;
    while i < n
        invariant
            n == s@.len(),
            bytes@.len() == n,
            forall|j: int| 0 <= j < n ==> #[trigger] bytes@[j] == s@[j] as u8,
            vstd::utf8::is_ascii_chars(s@),
            d == s@.skip(start as int),
            d == unsigned_digits(s@),
            start <= i <= n,
            start < n,
            value <= u32::MAX,
            value == digits_value(d.take(i - start)),
            forall|j: int| 0 <= j < i - start ==> is_digit(#[trigger] d[j]),
        decreases n - i,
    {
        let b = bytes[i];
        let ghost c = s@[i as int];
        assert(d[i - start] == c);
        assert(c as u8 == b);
        assert('\0' <= c <= '\u{7f}');
        assert(is_digit(c) <==> 48 <= b <= 57) by {
            assert((c as u32) < 128);
        }
        if b < 48u8 || b > 57u8 {
            assert(!is_digit(d[i - start]));
            return None;
        }
        assert(d.take(i + 1 - start).drop_last() =~= d.take(i - start));
        assert((c as u32 - '0' as u32) == (b - 48u8) as u32);
        value = value * 10 + (b - 48u8) as u64;
        i = i + 1;
        assert(d.take(i - start).last() == c);
        assert(value == digits_value(d.take(i - start)));
        if value > u32::MAX as u64 {
            proof {
                lemma_digits_value_prefix(d, i - start);
                assert(digits_value(d) > u32::MAX);
            }
            return None;
        }
    }
    assert(d.take(i - start) =~= d);
    Some(value as u32)
}

/// Splits `s` at every `sep`, as `split_all` states.
pub fn split_all_pieces(s: &str, sep: char) -> (r: Vec<&str>)
    ensures
        r@.map_values(|p: &str| p@) == split_all(s@, sep),
{
    let mut out: Vec<&str> = Vec::new();
    let mut rest: &str = s;
    loop
        invariant
            out@.map_values(|p: &str| p@) + split_all(rest@, sep) == split_all(s@, sep),
        decreases rest@.len(),
    {
        match split_once_char(rest, sep) {
            Some((head, tail)) => {
                proof {
                    assert(rest@.len() == head@.len() + 1 + tail@.len());
                    lemma_split_n_step(rest@, sep, rest@.len() + 1, head@, tail@);
                    lemma_split_n_saturates(tail@, sep, rest@.len());
                }
                out.push(head);
                assert(out@.map_values(|p: &str| p@) + split_all(tail@, sep) =~= split_all(s@, sep));
                rest = tail;
            },
            None => {
                out.push(rest);
                assert(out@.map_values(|p: &str| p@) =~= split_all(s@, sep));
                return out;
            },
        }
    }
}

} // verus!
