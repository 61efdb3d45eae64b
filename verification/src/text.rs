//! Text helpers on `str` and `String`, specified over their `Seq<char>` views:
//! decimal numerals (`i64`'s `Display` and `FromStr`), splitting at a
//! character, the last occurrence of a character, and substring search.

use vstd::prelude::*;
use vstd::string::*;

verus! {

// ---------------------------------------------------------------------------
// Plain sequences of characters
// ---------------------------------------------------------------------------

/// Whether `c` is an ASCII decimal digit.
pub open spec fn is_digit(c: char) -> bool {
    '0' <= c && c <= '9'
}

/// The digit character of value `d` (for `0 <= d < 10`).
pub open spec fn digit_char(d: int) -> char {
    (d + 48) as char
}

/// The value of a digit character.
pub open spec fn digit_value(c: char) -> int {
    c as int - 48
}

/// Whether every character of `s` is a decimal digit.
pub open spec fn all_digits(s: Seq<char>) -> bool {
    forall|i: int| 0 <= i < s.len() ==> is_digit(#[trigger] s[i])
}

/// The numeral of `n` in base ten, most significant digit first, without
/// leading zeros (`"0"` for zero).
pub open spec fn decimal(n: nat) -> Seq<char>
    decreases n,
{
    if n < 10 {
        seq![digit_char(n as int)]
    } else {
        decimal(n / 10).push(digit_char((n % 10) as int))
    }
}

/// The text that `i64`'s `Display` writes for `x`: a `-` for negative values,
/// then the numeral of the magnitude.
pub open spec fn signed_decimal(x: int) -> Seq<char> {
    if x < 0 {
        seq!['-'] + decimal((-x) as nat)
    } else {
        decimal(x as nat)
    }
}

/// The value of a run of decimal digits, read most significant first.
pub open spec fn digits_value(s: Seq<char>) -> int
    decreases s.len(),
{
    if s.len() == 0 {
        0
    } else {
        digits_value(s.drop_last()) * 10 + digit_value(s.last())
    }
}

/// What `str::parse::<i64>` returns for `s`, `None` standing for its error:
/// an optional `+` or `-`, then one or more ASCII digits whose value is in
/// the range of `i64`; nothing else is accepted.
pub open spec fn parsed_i64(s: Seq<char>) -> Option<i64> {
    let signed = s.len() > 0 && (s[0] == '-' || s[0] == '+');
    let negative = s.len() > 0 && s[0] == '-';
    let body = if signed { s.drop_first() } else { s };
    let v = if negative { -digits_value(body) } else { digits_value(body) };
    if body.len() > 0 && all_digits(body) && i64::MIN <= v && v <= i64::MAX {
        Some(v as i64)
    } else {
        None
    }
}

/// The pieces of `s` between the occurrences of `sep`, as `str::split` yields
/// them: one more piece than there are separators, empty pieces included.
pub open spec fn split_on(s: Seq<char>, sep: char) -> Seq<Seq<char>>
    decreases s.len(),
{
    if s.len() == 0 {
        seq![Seq::<char>::empty()]
    } else {
        let rest = split_on(s.drop_last(), sep);
        if s.last() == sep {
            rest.push(Seq::<char>::empty())
        } else {
            rest.update(rest.len() - 1, rest.last().push(s.last()))
        }
    }
}

/// The pieces joined back together with `sep` between neighbours.
pub open spec fn join_with(pieces: Seq<Seq<char>>, sep: char) -> Seq<char>
    decreases pieces.len(),
{
    if pieces.len() == 0 {
        Seq::<char>::empty()
    } else if pieces.len() == 1 {
        pieces[0]
    } else {
        join_with(pieces.drop_last(), sep).push(sep) + pieces.last()
    }
}

/// The index of the last occurrence of `c` in `s`, or `-1` where there is none.
pub open spec fn last_index_of(s: Seq<char>, c: char) -> int
    decreases s.len(),
{
    if s.len() == 0 {
        -1
    } else if s.last() == c {
        s.len() - 1
    } else {
        last_index_of(s.drop_last(), c)
    }
}

/// What `str::rsplit_once(c)` returns: the text before and after the last
/// occurrence of `c`, or `None` where `c` does not occur.
pub open spec fn rsplit_once_at(s: Seq<char>, c: char) -> Option<(Seq<char>, Seq<char>)> {
    let i = last_index_of(s, c);
    if i < 0 {
        None
    } else {
        Some((s.take(i), s.skip(i + 1)))
    }
}

/// Whether `pat` occurs in `s` starting at index `i`.
pub open spec fn occurs_at(s: Seq<char>, pat: Seq<char>, i: int) -> bool {
    0 <= i && i + pat.len() <= s.len() && s.subrange(i, i + pat.len()) == pat
}

/// Whether `pat` occurs somewhere in `s` (`str::contains`).
pub open spec fn contains_text(s: Seq<char>, pat: Seq<char>) -> bool {
    exists|i: int| occurs_at(s, pat, i)
}

/// The texts of a list of strings.
pub open spec fn texts(v: Seq<String>) -> Seq<Seq<char>> {
    v.map_values(|s: String| s@)
}

/// The text of an optional string.
pub open spec fn opt_text(o: Option<String>) -> Option<Seq<char>> {
    match o {
        Some(s) => Some(s@),
        None => None,
    }
}

// ---------------------------------------------------------------------------
// Lemmas
// ---------------------------------------------------------------------------

/// The numeral of `n` is a non-empty run of digits whose value is `n`.
pub proof fn lemma_decimal(n: nat)
    ensures
        decimal(n).len() > 0,
        all_digits(decimal(n)),
        digits_value(decimal(n)) == n,
    decreases n,
{
    let d = decimal(n);
    if n < 10 {
        assert(d.drop_last() =~= Seq::<char>::empty());
        assert(digit_value(digit_char(n as int)) == n);
        assert(d.last() == digit_char(n as int));
        assert(digits_value(d) == digits_value(d.drop_last()) * 10 + digit_value(d.last()));
    } else {
        lemma_decimal(n / 10);
        assert(d.drop_last() =~= decimal(n / 10));
        assert(digit_value(digit_char((n % 10) as int)) == n % 10);
        assert(n == (n / 10) * 10 + n % 10);
        assert(d.last() == digit_char((n % 10) as int));
        assert(digits_value(d) == digits_value(d.drop_last()) * 10 + digit_value(d.last()));
        assert forall|i: int| 0 <= i < d.len() implies is_digit(#[trigger] d[i]) by {
            if i < d.len() - 1 {
                assert(d[i] == decimal(n / 10)[i]);
            }
        }
    }
}

/// Different numbers have different numerals.
pub proof fn lemma_decimal_injective(a: nat, b: nat)
    requires
        decimal(a) == decimal(b),
    ensures
        a == b,
{
    lemma_decimal(a);
    lemma_decimal(b);
}

/// The value of a run of digits is not negative.
pub proof fn lemma_digits_value_nonneg(s: Seq<char>)
    requires
        all_digits(s),
    ensures
        digits_value(s) >= 0,
    decreases s.len(),
{
    if s.len() > 0 {
        assert(all_digits(s.drop_last())) by {
            assert forall|i: int| 0 <= i < s.drop_last().len() implies is_digit(
                #[trigger] s.drop_last()[i],
            ) by {
                assert(s.drop_last()[i] == s[i]);
            }
        }
        lemma_digits_value_nonneg(s.drop_last());
        assert(is_digit(s[s.len() - 1]));
    }
}

/// A prefix of a run of digits has no greater value than the whole run.
pub proof fn lemma_digits_value_prefix(s: Seq<char>, k: int)
    requires
        all_digits(s),
        0 <= k <= s.len(),
    ensures
        digits_value(s.take(k)) <= digits_value(s),
    decreases s.len(),
{
    if k == s.len() {
        assert(s.take(k) =~= s);
    } else {
        let t = s.drop_last();
        assert(all_digits(t)) by {
            assert forall|i: int| 0 <= i < t.len() implies is_digit(#[trigger] t[i]) by {
                assert(t[i] == s[i]);
            }
        }
        lemma_digits_value_prefix(t, k);
        assert(t.take(k) =~= s.take(k));
        lemma_digits_value_nonneg(t);
        assert(is_digit(s[s.len() - 1]));
    }
}

/// Reading a numeral back gives the number: `str::parse::<i64>` undoes
/// `i64`'s `Display`.
pub proof fn lemma_parse_display_roundtrip(x: i64)
    ensures
        parsed_i64(signed_decimal(x as int)) == Some(x),
{
    if x < 0 {
        let m = (-x) as nat;
        lemma_decimal(m);
        let s = signed_decimal(x as int);
        assert(s.drop_first() =~= decimal(m));
        assert(s[0] == '-');
    } else {
        let m = x as nat;
        lemma_decimal(m);
        let d = decimal(m);
        assert(is_digit(d[0]));
    }
}

/// `split_on` yields at least one piece.
pub proof fn lemma_split_nonempty(s: Seq<char>, sep: char)
    ensures
        split_on(s, sep).len() >= 1,
    decreases s.len(),
{
    if s.len() > 0 {
        lemma_split_nonempty(s.drop_last(), sep);
    }
}

/// Joining the pieces of a split with the separator gives back the text, and
/// no piece holds the separator.
pub proof fn lemma_split_join(s: Seq<char>, sep: char)
    ensures
        join_with(split_on(s, sep), sep) == s,
        forall|i: int|
            0 <= i < split_on(s, sep).len() ==> !(#[trigger] split_on(s, sep)[i]).contains(sep),
    decreases s.len(),
{
    if s.len() > 0 {
        let t = s.drop_last();
        let rest = split_on(t, sep);
        lemma_split_join(t, sep);
        lemma_split_nonempty(t, sep);
        let p = split_on(s, sep);
        if s.last() == sep {
            assert(p.drop_last() =~= rest);
            assert(join_with(p, sep) =~= s);
            assert forall|i: int| 0 <= i < p.len() implies !(#[trigger] p[i]).contains(sep) by {
                if i < p.len() - 1 {
                    assert(p[i] == rest[i]);
                }
            }
        } else {
            let last = rest.last().push(s.last());
            if rest.len() == 1 {
                assert(join_with(p, sep) =~= s);
            } else {
                assert(p.drop_last() =~= rest.drop_last());
                assert(join_with(p, sep) =~= join_with(rest, sep).push(s.last()));
                assert(join_with(p, sep) =~= s);
            }
            assert forall|i: int| 0 <= i < p.len() implies !(#[trigger] p[i]).contains(sep) by {
                if i < p.len() - 1 {
                    assert(p[i] == rest[i]);
                } else {
                    assert(p[i] == last);
                    assert(!rest[rest.len() - 1].contains(sep));
                    if last.contains(sep) {
                        let j = choose|j: int| 0 <= j < last.len() && last[j] == sep;
                        if j < last.len() - 1 {
                            assert(rest.last()[j] == sep);
                        }
                    }
                }
            }
        }
    }
}

/// Where `c` occurs last in `s`, if at all.
pub proof fn lemma_last_index_of(s: Seq<char>, c: char)
    ensures
        -1 <= last_index_of(s, c) < s.len(),
        last_index_of(s, c) >= 0 ==> s[last_index_of(s, c)] == c,
        forall|j: int| last_index_of(s, c) < j < s.len() ==> s[j] != c,
    decreases s.len(),
{
    if s.len() > 0 && s.last() != c {
        lemma_last_index_of(s.drop_last(), c);
        assert forall|j: int| last_index_of(s, c) < j < s.len() implies s[j] != c by {
            if j < s.len() - 1 {
                assert(s[j] == s.drop_last()[j]);
            }
        }
    }
}

/// Where the text after the last `c` holds no `c`, that `c` is the last one.
pub proof fn lemma_last_index_after(x: Seq<char>, c: char, e: Seq<char>)
    requires
        !e.contains(c),
    ensures
        last_index_of(x.push(c) + e, c) == x.len(),
    decreases e.len(),
{
    if e.len() == 0 {
        assert(x.push(c) + e =~= x.push(c));
    } else {
        let f = e.drop_last();
        assert(!f.contains(c)) by {
            if f.contains(c) {
                let j = choose|j: int| 0 <= j < f.len() && f[j] == c;
                assert(e[j] == c);
            }
        }
        assert(e[e.len() - 1] != c);
        assert((x.push(c) + e).drop_last() =~= x.push(c) + f);
        lemma_last_index_after(x, c, f);
    }
}

/// `rsplit_once` splits the text around the last occurrence of `c`: the two
/// parts with `c` between them give back the text, and the part after holds
/// no `c`. Where it gives `None`, `c` does not occur.
pub proof fn lemma_rsplit_once(s: Seq<char>, c: char)
    ensures
        rsplit_once_at(s, c) matches Some((l, r)) ==> l.push(c) + r == s && !r.contains(c),
        rsplit_once_at(s, c) is None ==> !s.contains(c),
{
    lemma_last_index_of(s, c);
    let i = last_index_of(s, c);
    if i >= 0 {
        assert(s.take(i).push(c) + s.skip(i + 1) =~= s);
        if s.skip(i + 1).contains(c) {
            let r = s.skip(i + 1);
            let j = choose|j: int| 0 <= j < r.len() && #[trigger] r[j] == c;
            assert(s[i + 1 + j] == c);
        }
    } else {
        if s.contains(c) {
            let j = choose|j: int| 0 <= j < s.len() && s[j] == c;
            assert(s[j] == c);
        }
    }
}

// ---------------------------------------------------------------------------
// Executable functions
// ---------------------------------------------------------------------------

/// Appends one character to a `String` (std's `String::push`).
#[verifier::external_body]
pub(crate) fn push_char(s: &mut String, c: char)
    ensures
        final(s)@ == old(s)@.push(c),
{
    s.push(c);
}

/// The characters of a string slice, one per element.
pub fn chars_of(s: &str) -> (v: Vec<char>)
    ensures
        v@ == s@,
{
    let n = s.unicode_len();
    let mut v: Vec<char> = Vec::new();
    let mut i: usize = 0;
    while i < n
        invariant
            n == s@.len(),
            i <= n,
            v@ == s@.subrange(0, i as int),
        decreases n - i,
    {
        v.push(s.get_char(i));
        i = i + 1;
    }
    v
}

/// The string made of the given characters.
pub fn string_of(v: &Vec<char>) -> (s: String)
    ensures
        s@ == v@,
{
    let mut s = String::new();
    let mut i: usize = 0;
    while i < v.len()
        invariant
            i <= v.len(),
            s@ == v@.subrange(0, i as int),
        decreases v.len() - i,
    {
        push_char(&mut s, v[i]);
        i = i + 1;
    }
    s
}

/// A copy of a string slice as an owned `String`.
pub fn owned(s: &str) -> (r: String)
    ensures
        r@ == s@,
{
    String::from_str(s)
}

/// Whether two strings hold the same characters.
pub fn same_text(a: &str, b: &str) -> (r: bool)
    ensures
        r == (a@ == b@),
{
    let x = chars_of(a);
    let y = chars_of(b);
    if x.len() != y.len() {
        return false;
    }
    let mut i: usize = 0;
    while i < x.len()
        invariant
            x.len() == y.len(),
            i <= x.len(),
            x@ == a@,
            y@ == b@,
            forall|j: int| 0 <= j < i ==> x@[j] == y@[j],
        decreases x.len() - i,
    {
        if x[i] != y[i] {
            return false;
        }
        i = i + 1;
    }
    assert(x@ =~= y@);
    true
}

/// The digit character of value `d`.
fn digit_to_char(d: u128) -> (c: char)
    requires
        d < 10,
    ensures
        c == digit_char(d as int),
{
    if d == 0 {
        '0'
    } else if d == 1 {
        '1'
    } else if d == 2 {
        '2'
    } else if d == 3 {
        '3'
    } else if d == 4 {
        '4'
    } else if d == 5 {
        '5'
    } else if d == 6 {
        '6'
    } else if d == 7 {
        '7'
    } else if d == 8 {
        '8'
    } else {
        '9'
    }
}

/// Appends the numeral of `n`.
pub fn push_decimal(s: &mut String, n: u128)
    ensures
        final(s)@ == old(s)@ + decimal(n as nat),
    decreases n,
{
    if n >= 10 {
        push_decimal(s, n / 10);
    }
    push_char(s, digit_to_char(n % 10));
    proof {
        if n >= 10 {
            assert(decimal(n as nat) == decimal((n / 10) as nat).push(digit_char((n % 10) as int)));
        }
    }
}

/// Appends the text that `i64`'s `Display` writes for `x`.
pub fn push_i64(s: &mut String, x: i64)
    ensures
        final(s)@ == old(s)@ + signed_decimal(x as int),
{
    if x < 0 {
        push_char(s, '-');
        let m: u128 = if x == i64::MIN {
            9223372036854775808u128
        } else {
            (-x) as u128
        };
        push_decimal(s, m);
    } else {
        push_decimal(s, x as u128);
    }
}

/// The text that `i64`'s `Display` writes for `x` (`x.to_string()`).
pub fn format_i64(x: i64) -> (s: String)
    ensures
        s@ == signed_decimal(x as int),
{
    let mut s = String::new();
    push_i64(&mut s, x);
    s
}

/// `str::parse::<i64>`: `None` where the text is not an optionally signed run
/// of digits in the range of `i64`.
pub fn parse_i64(s: &str) -> (r: Option<i64>)
    ensures
        r == parsed_i64(s@),
{
    let cs = chars_of(s);
    let n = cs.len();
    if n == 0 {
        return None;
    }
    let negative = cs[0] == '-';
    let start: usize = if cs[0] == '-' || cs[0] == '+' {
        1
    } else {
        0
    };
    let ghost body = cs@.subrange(start as int, n as int);
    assert(body =~= (if start == 1 { s@.drop_first() } else { s@ }));
    if start == n {
        return None;
    }
    let limit: u128 = 9223372036854775808u128;
    let mut acc: u128 = 0;
    let mut i: usize = start;
    while i < n
        invariant
            cs@ == s@,
            n == cs@.len(),
            start <= i <= n,
            start < n,
            limit == 9223372036854775808u128,
            body == cs@.subrange(start as int, n as int),
            body == (if s@.len() > 0 && (s@[0] == '-' || s@[0] == '+') {
                s@.drop_first()
            } else {
                s@
            }),
            all_digits(cs@.subrange(start as int, i as int)),
            acc == digits_value(cs@.subrange(start as int, i as int)),
            acc <= limit,
        decreases n - i,
    {
        let c = cs[i];
        let ghost pre = cs@.subrange(start as int, i as int);
        let ghost next = cs@.subrange(start as int, i + 1);
        assert(next.drop_last() =~= pre);
        assert(next.last() == c);
        if !('0' <= c && c <= '9') {
            assert(body[i - start] == c);
            assert(!is_digit(body[i - start]));
            return None;
        }
        assert(all_digits(next)) by {
            assert forall|j: int| 0 <= j < next.len() implies is_digit(#[trigger] next[j]) by {
                if j < next.len() - 1 {
                    assert(next[j] == pre[j]);
                }
            }
        }
        acc = acc * 10 + ((c as u32) - 48) as u128;
        if acc > limit {
            proof {
                if all_digits(body) {
                    assert(body.take((i + 1 - start) as int) =~= next);
                    lemma_digits_value_prefix(body, (i + 1 - start) as int);
                }
            }
            return None;
        }
        i = i + 1;
    }
    assert(cs@.subrange(start as int, n as int) =~= body);
    if negative {
        if acc == limit {
            Some(i64::MIN)
        } else {
            Some(-(acc as i64))
        }
    } else {
        if acc == limit {
            None
        } else {
            Some(acc as i64)
        }
    }
}

/// `str::split(sep)`: the pieces of `s` between the occurrences of `sep`.
pub fn split_at_char(s: &str, sep: char) -> (pieces: Vec<String>)
    ensures
        pieces@.map_values(|p: String| p@) == split_on(s@, sep),
{
    let cs = chars_of(s);
    let mut pieces: Vec<String> = Vec::new();
    let mut cur: Vec<char> = Vec::new();
    let mut i: usize = 0;
    while i < cs.len()
        invariant
            cs@ == s@,
            i <= cs.len(),
            pieces@.map_values(|p: String| p@).push(cur@) == split_on(cs@.take(i as int), sep),
        decreases cs.len() - i,
    {
        let ghost pre = cs@.take(i as int);
        let ghost old_pieces = pieces@.map_values(|p: String| p@);
        assert(cs@.take(i + 1).drop_last() =~= pre);
        proof {
            lemma_split_nonempty(pre, sep);
        }
        let c = cs[i];
        if c == sep {
            let piece = string_of(&cur);
            pieces.push(piece);
            cur = Vec::new();
            assert(pieces@.map_values(|p: String| p@) =~= old_pieces.push(piece@));
            assert(pieces@.map_values(|p: String| p@).push(cur@) =~= split_on(
                cs@.take(i + 1),
                sep,
            ));
        } else {
            cur.push(c);
            assert(pieces@.map_values(|p: String| p@).push(cur@) =~= split_on(
                cs@.take(i + 1),
                sep,
            ));
        }
        i = i + 1;
    }
    let ghost before = pieces@.map_values(|p: String| p@);
    let last = string_of(&cur);
    pieces.push(last);
    assert(pieces@.map_values(|p: String| p@) =~= before.push(cur@));
    assert(cs@.take(cs.len() as int) =~= cs@);
    pieces
}

/// `str::rsplit_once(c)`: the text before and after the last `c`.
pub fn rsplit_once_char(s: &str, c: char) -> (r: Option<(String, String)>)
    ensures
        match r {
            Some((l, t)) => rsplit_once_at(s@, c) == Some((l@, t@)),
            None => rsplit_once_at(s@, c) is None,
        },
{
    let cs = chars_of(s);
    let mut i: usize = cs.len();
    assert(cs@.take(i as int) =~= cs@);
    while i > 0
        invariant
            cs@ == s@,
            i <= cs.len(),
            last_index_of(cs@, c) == last_index_of(cs@.take(i as int), c),
        decreases i,
    {
        let ghost pre = cs@.take(i as int);
        assert(pre.drop_last() =~= cs@.take(i - 1));
        if cs[i - 1] == c {
            let k = i - 1;
            let mut left: Vec<char> = Vec::new();
            let mut j: usize = 0;
            while j < k
                invariant
                    cs@ == s@,
                    k < cs.len(),
                    j <= k,
                    left@ == cs@.take(j as int),
                decreases k - j,
            {
                left.push(cs[j]);
                j = j + 1;
                assert(left@ =~= cs@.take(j as int));
            }
            let mut right: Vec<char> = Vec::new();
            let mut j: usize = k + 1;
            while j < cs.len()
                invariant
                    cs@ == s@,
                    k < cs.len(),
                    k + 1 <= j <= cs.len(),
                    right@ == cs@.subrange(k + 1, j as int),
                decreases cs.len() - j,
            {
                right.push(cs[j]);
                j = j + 1;
                assert(right@ =~= cs@.subrange(k + 1, j as int));
            }
            assert(cs@.skip(k + 1) =~= cs@.subrange(k + 1, cs.len() as int));
            return Some((string_of(&left), string_of(&right)));
        }
        i = i - 1;
    }
    None
}

/// Whether one of the strings holds the same characters as `s`.
pub fn contains_string(v: &Vec<String>, s: &String) -> (r: bool)
    ensures
        r == texts(v@).contains(s@),
{
    let mut i: usize = 0;
    while i < v.len()
        invariant
            i <= v.len(),
            forall|j: int| 0 <= j < i ==> v@[j]@ != s@,
        decreases v.len() - i,
    {
        if v[i] == *s {
            assert(texts(v@)[i as int] == s@);
            return true;
        }
        i = i + 1;
    }
    assert(!texts(v@).contains(s@)) by {
        if texts(v@).contains(s@) {
            let j = choose|j: int| 0 <= j < texts(v@).len() && texts(v@)[j] == s@;
            assert(v@[j]@ == s@);
        }
    }
    false
}

/// `str::contains`: whether `pat` occurs in `s`.
pub fn contains_str(s: &str, pat: &str) -> (r: bool)
    ensures
        r == contains_text(s@, pat@),
{
    let x = chars_of(s);
    let p = chars_of(pat);
    if p.len() > x.len() {
        assert forall|i: int| !occurs_at(s@, pat@, i) by {}
        return false;
    }
    let last = x.len() - p.len();
    let mut i: usize = 0;
    while i <= last
        invariant
            x@ == s@,
            p@ == pat@,
            p.len() <= x.len(),
            last == x.len() - p.len(),
            i <= last + 1,
            forall|k: int| 0 <= k < i ==> !occurs_at(s@, pat@, k),
        decreases last + 1 - i,
    {
        let mut j: usize = 0;
        let mut same = true;
        while j < p.len()
            invariant
                x@ == s@,
                p@ == pat@,
                i <= last,
                last == x.len() - p.len(),
                j <= p.len(),
                same == (forall|m: int| 0 <= m < j ==> x@[i + m] == p@[m]),
            decreases p.len() - j,
        {
            if x[i + j] != p[j] {
                same = false;
            }
            j = j + 1;
        }
        if same {
            assert(x@.subrange(i as int, i + p.len()) =~= p@);
            assert(occurs_at(s@, pat@, i as int));
            return true;
        }
        assert(!occurs_at(s@, pat@, i as int)) by {
            let m = choose|m: int| 0 <= m < p.len() && x@[i + m] != p@[m];
            if occurs_at(s@, pat@, i as int) {
                assert(x@.subrange(i as int, i + p.len())[m] == x@[i + m]);
            }
        }
        i = i + 1;
    }
    false
}

} // verus!
