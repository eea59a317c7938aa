//! Small text routines on field values: stripping surrounding double quotes
//! and reading an unsigned decimal number the way the standard integer
//! parser does.

use vstd::prelude::*;

verus! {

/// `s` with every leading and trailing `'"'` removed.
pub open spec fn trim_quotes(s: Seq<char>) -> Seq<char>
    decreases s.len(),
{
    if s.len() > 0 && s[0] == '"' {
        trim_quotes(s.drop_first())
    } else if s.len() > 0 && s.last() == '"' {
        trim_quotes(s.drop_last())
    } else {
        s
    }
}

/// A decimal digit `0`..`9`.
pub open spec fn is_digit(c: char) -> bool {
    48 <= (c as u32) <= 57
}

/// The value of a decimal digit.
pub open spec fn digit_value(c: char) -> nat {
    ((c as u32) - 48) as nat
}

/// Every character of `d` is a decimal digit.
pub open spec fn all_digits(d: Seq<char>) -> bool {
    forall|i: int| 0 <= i < d.len() ==> #[trigger] is_digit(d[i])
}

/// The number that the decimal digits `d` spell (most significant first).
pub open spec fn decimal_value(d: Seq<char>) -> nat
    decreases d.len(),
{
    if d.len() == 0 {
        0
    } else {
        decimal_value(d.drop_last()) * 10 + digit_value(d.last())
    }
}

/// The digits of an unsigned number: the text after an optional leading `'+'`.
pub open spec fn digits_part(s: Seq<char>) -> Seq<char> {
    if s.len() > 0 && s[0] == '+' {
        s.drop_first()
    } else {
        s
    }
}

/// How the standard library reads an unsigned integer whose largest value is
/// `limit`: an optional `'+'`, then at least one decimal digit and nothing
/// else; a value above `limit` is an overflow and gives nothing.
pub open spec fn spec_parse_unsigned(s: Seq<char>, limit: nat) -> Option<nat> {
    let d = digits_part(s);
    if d.len() > 0 && all_digits(d) && decimal_value(d) <= limit {
        Some(decimal_value(d))
    } else {
        None
    }
}

/// Trimming leaves no double quote at either end, and trimming again
/// changes nothing.
pub proof fn lemma_trim_quotes_clean(s: Seq<char>)
    ensures
        trim_quotes(s).len() > 0 ==> trim_quotes(s)[0] != '"' && trim_quotes(s).last() != '"',
        trim_quotes(trim_quotes(s)) == trim_quotes(s),
        trim_quotes(s).len() <= s.len(),
    decreases s.len(),
{
    if s.len() > 0 && s[0] == '"' {
        lemma_trim_quotes_clean(s.drop_first());
    } else if s.len() > 0 && s.last() == '"' {
        lemma_trim_quotes_clean(s.drop_last());
    }
}

/// A text of decimal digits, optionally after one `'+'`, reads as the number
/// it spells when that is at most `limit`, and as nothing when it is larger;
/// a text holding any other character (or empty, or a lone `'+'`) reads as
/// nothing.
pub proof fn lemma_parse_reads_digits(s: Seq<char>, limit: nat)
    ensures
        s.len() > 0 && all_digits(s) ==> spec_parse_unsigned(s, limit) == (if decimal_value(s) <= limit {
            Some(decimal_value(s))
        } else {
            None
        }),
        s.len() > 1 && s[0] == '+' && all_digits(s.drop_first()) ==> spec_parse_unsigned(s, limit) == (
        if decimal_value(s.drop_first()) <= limit {
            Some(decimal_value(s.drop_first()))
        } else {
            None
        }),
        (exists|k: int| 0 <= k < s.len() && !is_digit(#[trigger] s[k]) && !(k == 0 && s[k] == '+'))
            ==> spec_parse_unsigned(s, limit) is None,
        s.len() == 0 ==> spec_parse_unsigned(s, limit) is None,
{
    if s.len() > 0 && all_digits(s) {
        assert(is_digit(s[0]));
    }
    if exists|k: int| 0 <= k < s.len() && !is_digit(#[trigger] s[k]) && !(k == 0 && s[k] == '+') {
        let k = choose|k: int| 0 <= k < s.len() && !is_digit(#[trigger] s[k]) && !(k == 0 && s[k] == '+');
        let d = digits_part(s);
        if s.len() > 0 && s[0] == '+' {
            assert(k > 0);
            assert(d[k - 1] == s[k]);
        } else {
            assert(d[k] == s[k]);
        }
    }
}

/// The value of decimal digits: one more digit multiplies by ten and adds
/// the digit's value (the character code minus that of `'0'`).
pub proof fn lemma_decimal_value_push(d: Seq<char>, c: char)
    requires
        is_digit(c),
    ensures
        decimal_value(d.push(c)) == decimal_value(d) * 10 + ((c as u32) as int - 48),
        decimal_value(seq![c]) == (c as u32) as int - 48,
{
    assert(d.push(c).drop_last() =~= d);
    assert(seq![c].drop_last() =~= Seq::<char>::empty());
    assert(decimal_value(Seq::<char>::empty()) == 0);
    assert(decimal_value(seq![c]) == decimal_value(seq![c].drop_last()) * 10 + digit_value(seq![c].last()));
}

/// Trimming removes only double quotes, and only at the two ends: the result
/// is the part of `s` between a run of leading quotes and a run of trailing
/// quotes.
pub proof fn lemma_trim_quotes_only_ends(s: Seq<char>) -> (r: (int, int))
    ensures
        0 <= r.0 <= r.1 <= s.len(),
        trim_quotes(s) == s.subrange(r.0, r.1),
        forall|k: int| 0 <= k < r.0 ==> s[k] == '"',
        forall|k: int| r.1 <= k < s.len() ==> s[k] == '"',
    decreases s.len(),
{
    if s.len() > 0 && s[0] == '"' {
        let (i, j) = lemma_trim_quotes_only_ends(s.drop_first());
        assert(s.drop_first().subrange(i, j) =~= s.subrange(i + 1, j + 1));
        assert forall|k: int| 0 <= k < i + 1 implies s[k] == '"' by {
            if k > 0 {
                assert(s[k] == s.drop_first()[k - 1]);
            }
        }
        assert forall|k: int| j + 1 <= k < s.len() implies s[k] == '"' by {
            assert(s[k] == s.drop_first()[k - 1]);
        }
        (i + 1, j + 1)
    } else if s.len() > 0 && s.last() == '"' {
        let (i, j) = lemma_trim_quotes_only_ends(s.drop_last());
        assert(s.drop_last().subrange(i, j) =~= s.subrange(i, j));
        assert forall|k: int| 0 <= k < i implies s[k] == '"' by {
            assert(s[k] == s.drop_last()[k]);
        }
        assert forall|k: int| j <= k < s.len() implies s[k] == '"' by {
            if k < s.len() - 1 {
                assert(s[k] == s.drop_last()[k]);
            }
        }
        (i, j)
    } else {
        assert(s.subrange(0, s.len() as int) =~= s);
        (0, s.len() as int)
    }
}

proof fn lemma_trim_front(s: Seq<char>, i: int)
    requires
        0 <= i <= s.len(),
        forall|k: int| 0 <= k < i ==> s[k] == '"',
    ensures
        trim_quotes(s) == trim_quotes(s.subrange(i, s.len() as int)),
    decreases i,
{
    if i > 0 {
        lemma_trim_front(s.drop_first(), i - 1);
        assert(s.drop_first().subrange(i - 1, s.drop_first().len() as int) =~= s.subrange(
            i,
            s.len() as int,
        ));
    } else {
        assert(s.subrange(0, s.len() as int) =~= s);
    }
}

proof fn lemma_trim_back(t: Seq<char>, j: int)
    requires
        0 <= j <= t.len(),
        t.len() > 0 ==> t[0] != '"',
        j == 0 ==> t.len() == 0 || forall|k: int| 0 <= k < t.len() ==> t[k] == '"',
        forall|k: int| j <= k < t.len() ==> t[k] == '"',
    ensures
        trim_quotes(t) == trim_quotes(t.subrange(0, j)),
    decreases t.len() - j,
{
    if j < t.len() {
        let u = t.drop_last();
        assert(t.last() == '"');
        if t.len() > 0 && t[0] == '"' {
        } else {
            assert(trim_quotes(t) == trim_quotes(u));
        }
        lemma_trim_back(u, j);
        assert(u.subrange(0, j) =~= t.subrange(0, j));
    } else {
        assert(t.subrange(0, j) =~= t);
    }
}

/// Removes every leading and trailing double quote.
pub fn strip_quotes(s: &str) -> (r: String)
    ensures
        r@ == trim_quotes(s@),
{
    let n = s.unicode_len();
    let mut i: usize = 0;
    while i < n && s.get_char(i) == '"'
        invariant
            n == s@.len(),
            i <= n,
            forall|k: int| 0 <= k < i ==> s@[k] == '"',
        decreases n - i,
    {
        i = i + 1;
    }
    let mut j: usize = n;
    while j > i && s.get_char(j - 1) == '"'
        invariant
            n == s@.len(),
            i <= j <= n,
            forall|k: int| j <= k < n ==> s@[k] == '"',
        decreases j,
    {
        j = j - 1;
    }
    let r = s.substring_char(i, j);
    proof {
        lemma_trim_front(s@, i as int);
        let t = s@.subrange(i as int, n as int);
        if i == n {
            assert(t.len() == 0);
            assert(r@ =~= t);
        } else {
            assert(t[0] == s@[i as int]);
            lemma_trim_back(t, (j - i) as int);
            let w = t.subrange(0, (j - i) as int);
            assert(w =~= r@);
            if w.len() > 0 {
                assert(w[0] == s@[i as int]);
                assert(w.last() == s@[j - 1]);
            }
        }
    }
    String::from_str(r)
}

proof fn lemma_decimal_prefix(d: Seq<char>, k: int)
    requires
        0 <= k <= d.len(),
    ensures
        decimal_value(d.take(k)) <= decimal_value(d),
    decreases d.len(),
{
    if k < d.len() {
        lemma_decimal_prefix(d.drop_last(), k);
        assert(d.drop_last().take(k) =~= d.take(k));
    } else {
        assert(d.take(k) =~= d);
    }
}

/// Reads an unsigned decimal number no larger than `limit`, as the standard
/// integer parser does for a type whose largest value is `limit`.
pub fn parse_unsigned(s: &str, limit: u32) -> (r: Option<u32>)
    ensures
        match r {
            Some(v) => spec_parse_unsigned(s@, limit as nat) == Some(v as nat),
            None => spec_parse_unsigned(s@, limit as nat) is None,
        },
{
    let n = s.unicode_len();
    let start: usize = if n > 0 && s.get_char(0) == '+' {
        1
    } else {
        0
    };
    let ghost d = digits_part(s@);
    assert(d =~= s@.subrange(start as int, n as int));
    if start == n {
        return None;
    }
    let mut acc: u64 = 0;
    let mut i: usize = start;
    while i < n
        invariant
            n == s@.len(),
            start <= i <= n,
            d =~= s@.subrange(start as int, n as int),
            d == digits_part(s@),
            acc == decimal_value(d.take(i - start)),
            acc <= limit,
            all_digits(d.take(i - start)),
        decreases n - i,
    {
        let c = s.get_char(i);
        let code = c as u32;
        let ghost k: int = i - start;
        assert(d[k] == c);
        if code < 48 || code > 57 {
            assert(!is_digit(d[k]));
            return None;
        }
        let next: u64 = acc * 10 + (code - 48) as u64;
        assert(d.take(k + 1).drop_last() =~= d.take(k));
        assert(d.take(k + 1).last() == c);
        assert(next == decimal_value(d.take(k + 1)));
        if next > limit as u64 {
            proof {
                lemma_decimal_prefix(d, k + 1);
            }
            return None;
        }
        acc = next;
        i = i + 1;
        assert(all_digits(d.take(i - start))) by {
            assert forall|q: int| 0 <= q < d.take(i - start).len() implies #[trigger] is_digit(
                d.take(i - start)[q],
            ) by {
                if q < k {
                    assert(d.take(i - start)[q] == d.take(k)[q]);
                }
            }
        }
    }
    assert(d.take(n - start) =~= d);
    Some(acc as u32)
}

} // verus!
