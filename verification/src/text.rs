//! Character-level helpers for the slot-description grammar: splitting on
//! whitespace, splitting on `/`, stripping parentheses, and reading unsigned
//! numbers and `HH:MM` times of day.
//!
//! Each executable function returns exactly the value of its spec
//! counterpart, so the parser's contract can be stated over sequences of
//! characters alone.

use vstd::prelude::*;
use vstd::string::StrSliceExecFns;

use crate::dates::Time;

verus! {

/// The characters of `s`, as a vector.
pub fn chars_of(s: &str) -> (r: Vec<char>)
    ensures
        r@ == s@,
{
    let n = s.unicode_len();
    let mut v: Vec<char> = Vec::new();
    let mut i: usize = 0;
    while i < n
        invariant
            i <= n,
            n == s@.len(),
            v@ == s@.take(i as int),
        decreases n - i,
    {
        v.push(s.get_char(i));
        proof {
            assert(s@.take(i + 1) =~= s@.take(i as int).push(s@[i as int]));
        }
        i += 1;
    }
    proof {
        assert(s@.take(n as int) =~= s@);
    }
    v
}

/// The ASCII whitespace characters, as the tokenizer sees them.
pub open spec fn is_ascii_ws(c: char) -> bool {
    c == ' ' || c == '\t' || c == '\n' || c == '\u{c}' || c == '\r'
}

/// The maximal whitespace-free words of `s`, in order.
pub open spec fn split_whitespace(s: Seq<char>) -> Seq<Seq<char>>
    decreases s.len(),
{
    if s.len() == 0 {
        Seq::empty()
    } else {
        let pre = split_whitespace(s.drop_last());
        let c = s.last();
        if is_ascii_ws(c) {
            pre
        } else if s.len() >= 2 && !is_ascii_ws(s[s.len() - 2]) {
            pre.update(pre.len() - 1, pre.last().push(c))
        } else {
            pre.push(seq![c])
        }
    }
}

/// Pushing one word onto a vector of words pushes its view onto the deep
/// view.
proof fn lemma_deep_view_push(a: Vec<Vec<char>>, b: Vec<Vec<char>>, x: Vec<char>)
    requires
        b@ == a@.push(x),
    ensures
        b.deep_view() == a.deep_view().push(x@),
{
    assert(x.deep_view() =~= x@);
    assert(b.deep_view() =~~= a.deep_view().push(x@));
}

/// Splits `s` into the words between ASCII whitespace runs.
pub fn tokenize(s: &Vec<char>) -> (r: Vec<Vec<char>>)
    ensures
        r.deep_view() == split_whitespace(s@),
{
    let mut out: Vec<Vec<char>> = Vec::new();
    let mut cur: Vec<char> = Vec::new();
    let mut i: usize = 0;
    while i < s.len()
        invariant
            i <= s.len(),
            cur.len() == 0 ==> out.deep_view() == split_whitespace(s@.take(i as int)),
            cur.len() == 0 ==> (i == 0 || is_ascii_ws(s@[i - 1])),
            cur.len() > 0 ==> i >= 1 && !is_ascii_ws(s@[i - 1]) && out.deep_view().push(cur@)
                == split_whitespace(s@.take(i as int)),
        decreases s.len() - i,
    {
        let c = s[i];
        proof {
            assert(s@.take(i + 1).drop_last() =~= s@.take(i as int));
            assert(s@.take(i + 1).last() == s@[i as int]);
        }
        if is_ws(c) {
            if cur.len() > 0 {
                let ghost prev = out;
                let ghost word = cur;
                out.push(cur);
                cur = Vec::new();
                proof {
                    lemma_deep_view_push(prev, out, word);
                }
            }
        } else {
            if cur.len() > 0 {
                proof {
                    let pre = split_whitespace(s@.take(i as int));
                    assert(pre.update(pre.len() - 1, pre.last().push(c)) =~~= out.deep_view().push(
                        cur@.push(c),
                    ));
                }
            } else {
                proof {
                    assert(cur@.push(c) =~= seq![c]);
                }
            }
            cur.push(c);
        }
        i += 1;
    }
    proof {
        assert(s@.take(s.len() as int) =~= s@);
    }
    if cur.len() > 0 {
        let ghost prev = out;
        let ghost word = cur;
        out.push(cur);
        proof {
            lemma_deep_view_push(prev, out, word);
        }
    }
    out
}

/// Whether `c` is ASCII whitespace, computed.
pub fn is_ws(c: char) -> (r: bool)
    ensures
        r == is_ascii_ws(c),
{
    c == ' ' || c == '\t' || c == '\n' || c == '\u{c}' || c == '\r'
}

/// `ts` with every word that is exactly `-` removed.
pub open spec fn drop_dashes(ts: Seq<Seq<char>>) -> Seq<Seq<char>>
    decreases ts.len(),
{
    if ts.len() == 0 {
        Seq::empty()
    } else {
        let pre = drop_dashes(ts.drop_last());
        if ts.last() == seq!['-'] {
            pre
        } else {
            pre.push(ts.last())
        }
    }
}

/// The meaningful words of a slot description: its whitespace-separated
/// words with the literal `-` separators dropped.
pub open spec fn meaningful_tokens(s: Seq<char>) -> Seq<Seq<char>> {
    drop_dashes(split_whitespace(s))
}

/// Removes every word equal to `-`.
pub fn remove_dashes(ts: Vec<Vec<char>>) -> (r: Vec<Vec<char>>)
    ensures
        r.deep_view() == drop_dashes(ts.deep_view()),
{
    let mut out: Vec<Vec<char>> = Vec::new();
    let mut i: usize = 0;
    while i < ts.len()
        invariant
            i <= ts.len(),
            out.deep_view() == drop_dashes(ts.deep_view().take(i as int)),
        decreases ts.len() - i,
    {
        proof {
            assert(ts.deep_view().take(i + 1).drop_last() =~= ts.deep_view().take(i as int));
            assert(ts.deep_view().take(i + 1).last() == ts.deep_view()[i as int]);
            assert(ts.deep_view()[i as int] =~= ts@[i as int]@);
        }
        let t = &ts[i];
        if t.len() == 1 && t[0] == '-' {
            proof {
                assert(ts@[i as int]@ =~= seq!['-']);
            }
        } else {
            proof {
                assert(ts@[i as int]@ != seq!['-']);
            }
            let ghost prev = out;
            let word = clone_chars(t);
            let ghost wordg = word;
            out.push(word);
            proof {
                lemma_deep_view_push(prev, out, wordg);
            }
        }
        i += 1;
    }
    proof {
        assert(ts.deep_view().take(ts.len() as int) =~= ts.deep_view());
    }
    out
}

/// Copies a word.
fn clone_chars(t: &Vec<char>) -> (r: Vec<char>)
    ensures
        r@ == t@,
{
    let mut out: Vec<char> = Vec::new();
    let mut i: usize = 0;
    while i < t.len()
        invariant
            i <= t.len(),
            out@ == t@.take(i as int),
        decreases t.len() - i,
    {
        out.push(t[i]);
        proof {
            assert(t@.take(i + 1) =~= t@.take(i as int).push(t@[i as int]));
        }
        i += 1;
    }
    proof {
        assert(t@.take(t.len() as int) =~= t@);
    }
    out
}

/// `s` with every `(` and `)` removed, wherever it stands.
pub open spec fn strip_parens(s: Seq<char>) -> Seq<char>
    decreases s.len(),
{
    if s.len() == 0 {
        Seq::empty()
    } else {
        let pre = strip_parens(s.drop_last());
        if s.last() == '(' || s.last() == ')' {
            pre
        } else {
            pre.push(s.last())
        }
    }
}

/// Removes every parenthesis character.
pub fn remove_parens(t: &Vec<char>) -> (r: Vec<char>)
    ensures
        r@ == strip_parens(t@),
{
    let mut out: Vec<char> = Vec::new();
    let mut i: usize = 0;
    while i < t.len()
        invariant
            i <= t.len(),
            out@ == strip_parens(t@.take(i as int)),
        decreases t.len() - i,
    {
        proof {
            assert(t@.take(i + 1).drop_last() =~= t@.take(i as int));
        }
        let c = t[i];
        if c != '(' && c != ')' {
            out.push(c);
        }
        i += 1;
    }
    proof {
        assert(t@.take(t.len() as int) =~= t@);
    }
    out
}

/// The parts of `s` between `/` separators, in order. Parts may be empty,
/// and a string without any `/` is one single part.
pub open spec fn split_slash(s: Seq<char>) -> Seq<Seq<char>>
    decreases s.len(),
{
    if s.len() == 0 {
        seq![Seq::<char>::empty()]
    } else {
        let pre = split_slash(s.drop_last());
        if s.last() == '/' {
            pre.push(Seq::empty())
        } else {
            pre.update(pre.len() - 1, pre.last().push(s.last()))
        }
    }
}

/// Splits on `/`, keeping empty parts.
pub fn split_on_slash(t: &Vec<char>) -> (r: Vec<Vec<char>>)
    ensures
        r.deep_view() == split_slash(t@),
        r.len() >= 1,
{
    let mut out: Vec<Vec<char>> = Vec::new();
    let mut cur: Vec<char> = Vec::new();
    let mut i: usize = 0;
    while i < t.len()
        invariant
            i <= t.len(),
            out.deep_view().push(cur@) == split_slash(t@.take(i as int)),
        decreases t.len() - i,
    {
        proof {
            assert(t@.take(i + 1).drop_last() =~= t@.take(i as int));
        }
        let c = t[i];
        if c == '/' {
            let ghost prev = out;
            let ghost word = cur;
            out.push(cur);
            cur = Vec::new();
            proof {
                lemma_deep_view_push(prev, out, word);
            }
        } else {
            proof {
                let pre = split_slash(t@.take(i as int));
                assert(pre.update(pre.len() - 1, pre.last().push(c)) =~~= out.deep_view().push(
                    cur@.push(c),
                ));
            }
            cur.push(c);
        }
        i += 1;
    }
    proof {
        assert(t@.take(t.len() as int) =~= t@);
    }
    let ghost prev = out;
    let ghost word = cur;
    out.push(cur);
    proof {
        lemma_deep_view_push(prev, out, word);
    }
    out
}

/// Whether `c` is an ASCII decimal digit.
pub open spec fn is_digit(c: char) -> bool {
    48 <= c as int <= 57
}

/// The value of the digit `c`.
pub open spec fn digit_val(c: char) -> int {
    c as int - 48
}

/// The number written by the digit string `s`, most significant digit first.
pub open spec fn dec_value(s: Seq<char>) -> int
    decreases s.len(),
{
    if s.len() == 0 {
        0
    } else {
        dec_value(s.drop_last()) * 10 + digit_val(s.last())
    }
}

/// Whether every character of `s` is a digit.
pub open spec fn all_digits(s: Seq<char>) -> bool {
    forall|i: int| 0 <= i < s.len() ==> is_digit(#[trigger] s[i])
}

/// The `k`-th power of ten.
pub open spec fn pow10(k: nat) -> int
    decreases k,
{
    if k == 0 {
        1
    } else {
        10 * pow10((k - 1) as nat)
    }
}

/// Powers of ten are positive.
pub proof fn lemma_pow10_pos(k: nat)
    ensures
        pow10(k) >= 1,
    decreases k,
{
    if k > 0 {
        lemma_pow10_pos((k - 1) as nat);
    }
}

/// Powers of ten grow with the exponent.
pub proof fn lemma_pow10_mono(a: nat, b: nat)
    requires
        a <= b,
    ensures
        pow10(a) <= pow10(b),
    decreases b,
{
    if a < b {
        lemma_pow10_mono(a, (b - 1) as nat);
        lemma_pow10_pos((b - 1) as nat);
    }
}

/// A string of `k` digits writes a number below the `k`-th power of ten.
pub proof fn lemma_dec_value_bound(s: Seq<char>)
    requires
        all_digits(s),
    ensures
        0 <= dec_value(s) < pow10(s.len()),
    decreases s.len(),
{
    if s.len() > 0 {
        assert forall|k: int| 0 <= k < s.drop_last().len() implies is_digit(
            #[trigger] s.drop_last()[k],
        ) by {
            assert(s.drop_last()[k] == s[k]);
        }
        lemma_dec_value_bound(s.drop_last());
        assert(is_digit(s[s.len() - 1]));
    }
}

/// The unsigned number written by `s`: an optional `+` sign, then at least
/// one digit, with a value that fits in 32 bits. Anything else is `None`.
pub open spec fn parse_u32(s: Seq<char>) -> Option<u32> {
    let digs = if s.len() >= 1 && s[0] == '+' {
        s.drop_first()
    } else {
        s
    };
    if digs.len() >= 1 && all_digits(digs) && dec_value(digs) <= u32::MAX {
        Some(dec_value(digs) as u32)
    } else {
        None
    }
}

/// Reads an unsigned 32-bit number, exactly as [`parse_u32`] describes it.
pub fn parse_u32_chars(t: &Vec<char>) -> (r: Option<u32>)
    ensures
        r == parse_u32(t@),
{
    let start: usize = if t.len() >= 1 && t[0] == '+' {
        1
    } else {
        0
    };
    let ghost digs = if start == 1 {
        t@.drop_first()
    } else {
        t@
    };
    proof {
        assert(digs.len() == t@.len() - start);
        assert(forall|k: int| 0 <= k < digs.len() ==> digs[k] == t@[k + start]);
    }
    if t.len() == start {
        return None;
    }
    let mut acc: u64 = 0;
    let mut over = false;
    let mut i = start;
    while i < t.len()
        invariant
            start <= i <= t.len(),
            start == 0 || start == 1,
            start == 1 <==> (t@.len() >= 1 && t@[0] == '+'),
            digs == (if start == 1 {
                t@.drop_first()
            } else {
                t@
            }),
            digs.len() == t@.len() - start,
            forall|k: int| 0 <= k < digs.len() ==> digs[k] == t@[k + start],
            forall|k: int| 0 <= k < i - start ==> is_digit(#[trigger] digs[k]),
            !over ==> acc == dec_value(digs.take(i - start)) && acc <= u32::MAX,
            over ==> dec_value(digs.take(i - start)) > u32::MAX,
        decreases t.len() - i,
    {
        let c = t[i];
        proof {
            assert(digs[i - start] == t@[i as int]);
        }
        match digit_of(c) {
            None => {
                proof {
                    assert(!is_digit(digs[i - start]));
                    assert(!all_digits(digs));
                }
                return None;
            },
            Some(d) => {
                proof {
                    assert(digs.take(i - start + 1).drop_last() =~= digs.take(i - start));
                    assert(digs.take(i - start + 1).last() == digs[i - start]);
                }
                if !over {
                    let next = acc * 10 + (d as u64);
                    if next > 0xFFFF_FFFF {
                        over = true;
                    } else {
                        acc = next;
                    }
                }
            },
        }
        i += 1;
    }
    proof {
        assert(digs.take(digs.len() as int) =~= digs);
    }
    if over {
        None
    } else {
        Some(acc as u32)
    }
}

/// `s` with its leading run of ASCII whitespace removed.
pub open spec fn skip_ascii_ws(s: Seq<char>) -> Seq<char>
    decreases s.len(),
{
    if s.len() > 0 && is_ascii_ws(s[0]) {
        skip_ascii_ws(s.drop_first())
    } else {
        s
    }
}

/// How many digits begin `s`.
pub open spec fn digit_prefix_len(s: Seq<char>) -> nat
    decreases s.len(),
{
    if s.len() > 0 && is_digit(s[0]) {
        1 + digit_prefix_len(s.drop_first())
    } else {
        0
    }
}

/// When the first `n` characters of `s` are digits, the digit prefix is at
/// least `n` long — and exactly `n` long if a non-digit or the end follows.
proof fn lemma_digit_prefix_len_of(s: Seq<char>, n: int)
    requires
        0 <= n <= s.len(),
        forall|q: int| 0 <= q < n ==> is_digit(#[trigger] s[q]),
    ensures
        digit_prefix_len(s) >= n,
        (n == s.len() || !is_digit(s[n])) ==> digit_prefix_len(s) == n,
    decreases n,
{
    if n > 0 {
        assert forall|q: int| 0 <= q < n - 1 implies is_digit(#[trigger] s.drop_first()[q]) by {
            assert(s.drop_first()[q] == s[q + 1]);
        }
        lemma_digit_prefix_len_of(s.drop_first(), n - 1);
        if n < s.len() {
            assert(s.drop_first()[n - 1] == s[n]);
        }
    }
}

/// A number field as the date and time grammar reads one: leading ASCII
/// whitespace, then greedily one to `max` digits. `Some` holds the number
/// the digits write and what remains of the string after them.
pub open spec fn take_number(s: Seq<char>, max: int) -> Option<(int, Seq<char>)> {
    let t = skip_ascii_ws(s);
    let n: int = if digit_prefix_len(t) < max {
        digit_prefix_len(t) as int
    } else {
        max
    };
    if n >= 1 {
        Some((dec_value(t.take(n)), t.skip(n)))
    } else {
        None
    }
}

/// Whether `c` is a digit, computed; hands back its value too.
pub fn digit_of(c: char) -> (r: Option<u8>)
    ensures
        r is Some <==> is_digit(c),
        r is Some ==> r.unwrap() == digit_val(c) && r.unwrap() <= 9,
{
    let code = c as u32;
    if 48 <= code && code <= 57 {
        Some((code - 48) as u8)
    } else {
        None
    }
}

/// Whether `c` is a digit, computed.
fn is_digit_char(c: char) -> (r: bool)
    ensures
        r == is_digit(c),
{
    let code = c as u32;
    48 <= code && code <= 57
}

/// The index of the first character at or after `i` that is no ASCII
/// whitespace.
fn skip_ws_from(t: &Vec<char>, i: usize) -> (j: usize)
    requires
        i <= t.len(),
    ensures
        i <= j <= t@.len(),
        skip_ascii_ws(t@.skip(i as int)) == t@.skip(j as int),
{
    let mut j = i;
    while j < t.len() && is_ws(t[j])
        invariant
            i <= j <= t@.len(),
            skip_ascii_ws(t@.skip(i as int)) == skip_ascii_ws(t@.skip(j as int)),
        decreases t@.len() - j,
    {
        proof {
            assert(t@.skip(j as int)[0] == t@[j as int]);
            assert(t@.skip(j as int).drop_first() =~= t@.skip(j + 1));
        }
        j += 1;
    }
    proof {
        if j < t.len() {
            assert(t@.skip(j as int)[0] == t@[j as int]);
        }
        assert(skip_ascii_ws(t@.skip(j as int)) == t@.skip(j as int));
    }
    j
}

/// Reads a number field from position `i`, exactly as [`take_number`]
/// describes it over `t`'s remainder: the value and the index after the
/// digits.
pub fn read_number(t: &Vec<char>, i: usize, max: usize) -> (r: Option<(u32, usize)>)
    requires
        i <= t.len(),
        1 <= max <= 4,
    ensures
        r is None ==> take_number(t@.skip(i as int), max as int) is None,
        r is Some ==> {
            let (v, j) = r.unwrap();
            &&& i <= j <= t@.len()
            &&& take_number(t@.skip(i as int), max as int) == Some((v as int, t@.skip(j as int)))
            &&& v < 10000
        },
{
    let j = skip_ws_from(t, i);
    let ghost tail = t@.skip(j as int);
    let mut pos: usize = j;
    let mut acc: u32 = 0;
    while pos < t.len() && pos - j < max && is_digit_char(t[pos])
        invariant
            j <= pos <= t@.len(),
            pos - j <= max,
            max <= 4,
            tail == t@.skip(j as int),
            forall|q: int| 0 <= q < pos - j ==> is_digit(#[trigger] tail[q]),
            acc == dec_value(tail.take(pos - j)),
            acc < pow10((pos - j) as nat),
        decreases t@.len() - pos,
    {
        proof {
            let k = pos - j;
            assert(tail[k] == t@[pos as int]);
            assert(tail.take(k + 1).drop_last() =~= tail.take(k));
            assert(tail.take(k + 1).last() == tail[k]);
            lemma_pow10_mono(k as nat, 3);
            assert(pow10(3) == 1000) by {
                reveal_with_fuel(pow10, 4);
            }
            assert(pow10((k + 1) as nat) == 10 * pow10(k as nat));
        }
        let d = (t[pos] as u32) - 48;
        acc = acc * 10 + d;
        pos += 1;
    }
    proof {
        let k = pos - j;
        lemma_digit_prefix_len_of(tail, k);
        lemma_pow10_mono(k as nat, 4);
        assert(pow10(4) == 10000) by {
            reveal_with_fuel(pow10, 5);
        }
        if k < max && pos < t.len() {
            assert(tail[k] == t@[pos as int]);
        }
        assert(tail.skip(k) =~= t@.skip(pos as int));
    }
    if pos == j {
        None
    } else {
        Some((acc, pos))
    }
}

/// The time of day the `%H:%M` format reads: an up-to-two-digit hour, a
/// colon, an up-to-two-digit minute ending the string, with leading ASCII
/// whitespace allowed before each number, the hour below 24 and the minute
/// below 60. The parsed time has second zero.
pub open spec fn parse_hhmm(s: Seq<char>) -> Option<Time> {
    match take_number(s, 2) {
        None => None,
        Some((h, r)) => if r.len() >= 1 && r[0] == ':' {
            match take_number(r.skip(1), 2) {
                None => None,
                Some((m, r2)) => if r2.len() == 0 && 0 <= h < 24 && 0 <= m < 60 {
                    Some(Time { hour: h as u8, minute: m as u8, second: 0 })
                } else {
                    None
                },
            }
        } else {
            None
        },
    }
}

/// Reads a time of day, exactly as [`parse_hhmm`] describes it.
pub fn parse_hhmm_chars(t: &Vec<char>) -> (r: Option<Time>)
    ensures
        r == parse_hhmm(t@),
        r is Some ==> r.unwrap().wf(),
{
    proof {
        assert(t@.skip(0) =~= t@);
    }
    let (h, p1) = match read_number(t, 0, 2) {
        Some(p) => p,
        None => {
            return None;
        },
    };
    if p1 == t.len() {
        return None;
    }
    proof {
        assert(t@.skip(p1 as int)[0] == t@[p1 as int]);
    }
    if t[p1] != ':' {
        return None;
    }
    proof {
        assert(t@.skip(p1 as int).skip(1) =~= t@.skip(p1 + 1));
    }
    let (m, p2) = match read_number(t, p1 + 1, 2) {
        Some(p) => p,
        None => {
            return None;
        },
    };
    if p2 < t.len() {
        return None;
    }
    if h < 24 && m < 60 {
        Some(Time { hour: h as u8, minute: m as u8, second: 0 })
    } else {
        None
    }
}

} // verus!
