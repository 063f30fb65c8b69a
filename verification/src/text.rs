//! Character-sequence utilities shared by the checkbox parser and the codec.
//!
//! Text is modelled as `Seq<char>`; executable code works on `Vec<char>`.
//! Splitting is pure: every `'\n'` separates two segments, so joining the
//! segments with `'\n'` restores the text exactly.

use vstd::prelude::*;

verus! {

/// The whitespace characters that trimming removes.
pub open spec fn is_space_char(c: char) -> bool {
    c == ' ' || c == '\t' || c == '\r' || c == '\n'
}

/// Every character of `s` is whitespace.
pub open spec fn all_space(s: Seq<char>) -> bool {
    forall|i: int| 0 <= i < s.len() ==> is_space_char(#[trigger] s[i])
}

pub open spec fn trim_start_spec(s: Seq<char>) -> Seq<char>
    decreases s.len(),
{
    if s.len() == 0 {
        s
    } else if is_space_char(s[0]) {
        trim_start_spec(s.drop_first())
    } else {
        s
    }
}

pub open spec fn trim_end_spec(s: Seq<char>) -> Seq<char>
    decreases s.len(),
{
    if s.len() == 0 {
        s
    } else if is_space_char(s.last()) {
        trim_end_spec(s.drop_last())
    } else {
        s
    }
}

/// Leading and trailing whitespace removed.
pub open spec fn trim_spec(s: Seq<char>) -> Seq<char> {
    trim_end_spec(trim_start_spec(s))
}

/// `s` split at every `'\n'`.  The result always has at least one segment,
/// and a trailing `'\n'` yields a trailing empty segment.
pub open spec fn split_lines(s: Seq<char>) -> Seq<Seq<char>>
    decreases s.len(),
{
    if s.len() == 0 {
        seq![Seq::<char>::empty()]
    } else if s[0] == '\n' {
        seq![Seq::<char>::empty()] + split_lines(s.drop_first())
    } else {
        let r = split_lines(s.drop_first());
        r.update(0, seq![s[0]] + r[0])
    }
}

/// The segments joined with `'\n'`; inverse of `split_lines`.
pub open spec fn join_lines(ls: Seq<Seq<char>>) -> Seq<char>
    decreases ls.len(),
{
    if ls.len() == 0 {
        Seq::<char>::empty()
    } else if ls.len() == 1 {
        ls[0]
    } else {
        ls[0] + seq!['\n'] + join_lines(ls.drop_first())
    }
}

/// No segment of `ls` contains a `'\n'`.
pub open spec fn lines_flat(ls: Seq<Seq<char>>) -> bool {
    forall|i: int, j: int|
        0 <= i < ls.len() && 0 <= j < ls[i].len() ==> #[trigger] ls[i][j] != '\n'
}

pub proof fn lemma_split_lines_len(s: Seq<char>)
    ensures
        split_lines(s).len() >= 1,
    decreases s.len(),
{
    if s.len() != 0 {
        lemma_split_lines_len(s.drop_first());
    }
}

/// The segments of a split never contain `'\n'`.
pub proof fn lemma_split_lines_flat(s: Seq<char>)
    ensures
        lines_flat(split_lines(s)),
    decreases s.len(),
{
    if s.len() == 0 {
    } else if s[0] == '\n' {
        lemma_split_lines_flat(s.drop_first());
        let r = split_lines(s.drop_first());
        let w = seq![Seq::<char>::empty()] + r;
        assert forall|i: int, j: int|
            0 <= i < w.len() && 0 <= j < w[i].len() implies #[trigger] w[i][j] != '\n' by {
            if i >= 1 {
                assert(w[i] == r[i - 1]);
            }
        }
    } else {
        lemma_split_lines_flat(s.drop_first());
        lemma_split_lines_len(s.drop_first());
        let r = split_lines(s.drop_first());
        let w = r.update(0, seq![s[0]] + r[0]);
        assert forall|i: int, j: int|
            0 <= i < w.len() && 0 <= j < w[i].len() implies #[trigger] w[i][j] != '\n' by {
            if i == 0 {
                if j == 0 {
                    assert(w[0][0] == s[0]);
                } else {
                    assert(w[0][j] == r[0][j - 1]);
                }
            } else {
                assert(w[i] == r[i]);
            }
        }
    }
}

/// Appending one character extends the last segment, or starts a new one.
pub proof fn lemma_split_lines_snoc(s: Seq<char>, c: char)
    ensures
        c == '\n' ==> split_lines(s.push(c)) == split_lines(s).push(Seq::<char>::empty()),
        c != '\n' ==> split_lines(s.push(c)) == split_lines(s).update(
            split_lines(s).len() - 1,
            split_lines(s).last().push(c),
        ),
    decreases s.len(),
{
    lemma_split_lines_len(s);
    if s.len() == 0 {
        let t = s.push(c);
        reveal_with_fuel(split_lines, 3);
        assert(t.len() == 1 && t[0] == c);
        assert(t.drop_first() =~= Seq::<char>::empty());
        if c == '\n' {
            assert(split_lines(t) =~~= split_lines(s).push(Seq::<char>::empty()));
        } else {
            assert(split_lines(t) =~~= split_lines(s).update(0, split_lines(s).last().push(c)));
        }
    } else {
        let t = s.push(c);
        assert(t[0] == s[0]);
        assert(t.drop_first() =~= s.drop_first().push(c));
        lemma_split_lines_snoc(s.drop_first(), c);
        lemma_split_lines_len(s.drop_first());
        let r = split_lines(s.drop_first());
        if s[0] == '\n' {
            if c == '\n' {
                assert(split_lines(t) =~= split_lines(s).push(Seq::<char>::empty()));
            } else {
                assert(split_lines(t) =~= split_lines(s).update(
                    split_lines(s).len() - 1,
                    split_lines(s).last().push(c),
                ));
            }
        } else {
            if c == '\n' {
                assert(split_lines(t) =~= split_lines(s).push(Seq::<char>::empty()));
            } else {
                let rc = split_lines(s.drop_first().push(c));
                if r.len() == 1 {
                    assert(rc == r.update(0, r[0].push(c)));
                    assert(seq![s[0]] + r[0].push(c) =~= (seq![s[0]] + r[0]).push(c));
                    assert(split_lines(t) =~= split_lines(s).update(
                        split_lines(s).len() - 1,
                        split_lines(s).last().push(c),
                    ));
                } else {
                    assert(rc == r.update(r.len() - 1, r.last().push(c)));
                    assert(split_lines(t) =~= split_lines(s).update(
                        split_lines(s).len() - 1,
                        split_lines(s).last().push(c),
                    ));
                }
            }
        }
    }
}

/// Joining after a new segment appends a separator and the segment.
pub proof fn lemma_join_lines_snoc(ls: Seq<Seq<char>>, l: Seq<char>)
    requires
        ls.len() >= 1,
    ensures
        join_lines(ls.push(l)) == join_lines(ls) + seq!['\n'] + l,
    decreases ls.len(),
{
    let w = ls.push(l);
    if ls.len() == 1 {
        assert(w.drop_first() =~= seq![l]);
        assert(join_lines(w) == w[0] + seq!['\n'] + join_lines(w.drop_first()));
    } else {
        assert(w.drop_first() =~= ls.drop_first().push(l));
        lemma_join_lines_snoc(ls.drop_first(), l);
        assert(join_lines(w) == ls[0] + seq!['\n'] + (join_lines(ls.drop_first()) + seq!['\n']
            + l));
        assert(ls[0] + seq!['\n'] + (join_lines(ls.drop_first()) + seq!['\n'] + l) =~= (ls[0]
            + seq!['\n'] + join_lines(ls.drop_first())) + seq!['\n'] + l);
    }
}

/// Joining the segments of a split restores the text.
pub proof fn lemma_join_split(s: Seq<char>)
    ensures
        join_lines(split_lines(s)) == s,
    decreases s.len(),
{
    if s.len() == 0 {
    } else {
        lemma_join_split(s.drop_first());
        lemma_split_lines_len(s.drop_first());
        let r = split_lines(s.drop_first());
        if s[0] == '\n' {
            let w = seq![Seq::<char>::empty()] + r;
            assert(w.drop_first() =~= r);
            assert(join_lines(w) == Seq::<char>::empty() + seq!['\n'] + join_lines(r));
            assert(Seq::<char>::empty() + seq!['\n'] + s.drop_first() =~= s);
        } else {
            let w = r.update(0, seq![s[0]] + r[0]);
            if r.len() == 1 {
                assert(join_lines(w) == seq![s[0]] + r[0]);
                assert(seq![s[0]] + s.drop_first() =~= s);
            } else {
                assert(w.drop_first() =~= r.drop_first());
                assert(join_lines(w) == (seq![s[0]] + r[0]) + seq!['\n'] + join_lines(
                    r.drop_first(),
                ));
                assert((seq![s[0]] + r[0]) + seq!['\n'] + join_lines(r.drop_first()) =~= seq![s[0]]
                    + (r[0] + seq!['\n'] + join_lines(r.drop_first())));
                assert(seq![s[0]] + s.drop_first() =~= s);
            }
        }
    }
}

/// A text without `'\n'` is a single segment.
pub proof fn lemma_split_lines_single(s: Seq<char>)
    requires
        forall|i: int| 0 <= i < s.len() ==> #[trigger] s[i] != '\n',
    ensures
        split_lines(s) == seq![s],
    decreases s.len(),
{
    if s.len() == 0 {
        assert(split_lines(s) =~~= seq![s]);
    } else {
        lemma_split_lines_single(s.drop_first());
        let r = split_lines(s.drop_first());
        assert(r == seq![s.drop_first()]);
        assert(seq![s[0]] + s.drop_first() =~= s);
        assert(r.update(0, seq![s[0]] + r[0]) =~= seq![s]);
    }
}

/// Splitting distributes over concatenation at a separator.
pub proof fn lemma_split_concat(a: Seq<char>, b: Seq<char>)
    ensures
        split_lines(a + seq!['\n'] + b) == split_lines(a) + split_lines(b),
    decreases a.len(),
{
    if a.len() == 0 {
        let t = a + seq!['\n'] + b;
        assert(t[0] == '\n');
        assert(t.drop_first() =~= b);
        assert(split_lines(t) =~= split_lines(a) + split_lines(b));
    } else {
        let t = a + seq!['\n'] + b;
        assert(t[0] == a[0]);
        assert(t.drop_first() =~= a.drop_first() + seq!['\n'] + b);
        lemma_split_concat(a.drop_first(), b);
        lemma_split_lines_len(a.drop_first());
        lemma_split_lines_len(b);
        let ra = split_lines(a.drop_first());
        let rb = split_lines(b);
        if a[0] == '\n' {
            assert(split_lines(t) =~= split_lines(a) + rb);
        } else {
            assert((ra + rb)[0] == ra[0]);
            assert((ra + rb).update(0, seq![a[0]] + ra[0]) =~= ra.update(0, seq![a[0]] + ra[0])
                + rb);
            assert(split_lines(t) =~= split_lines(a) + rb);
        }
    }
}

/// Splitting a join of flat segments restores the segments.
pub proof fn lemma_split_join(ls: Seq<Seq<char>>)
    requires
        ls.len() >= 1,
        lines_flat(ls),
    ensures
        split_lines(join_lines(ls)) == ls,
    decreases ls.len(),
{
    if ls.len() == 1 {
        lemma_split_lines_single(ls[0]);
        assert(seq![ls[0]] =~= ls);
    } else {
        assert(lines_flat(ls.drop_first())) by {
            assert forall|i: int, j: int|
                0 <= i < ls.drop_first().len() && 0 <= j < ls.drop_first()[i].len()
                implies #[trigger] ls.drop_first()[i][j] != '\n' by {
                assert(ls.drop_first()[i] == ls[i + 1]);
            }
        }
        lemma_split_join(ls.drop_first());
        lemma_split_concat(ls[0], join_lines(ls.drop_first()));
        lemma_split_lines_single(ls[0]);
        assert(seq![ls[0]] + ls.drop_first() =~= ls);
    }
}

pub open spec fn is_digit_char(c: char) -> bool {
    c == '0' || c == '1' || c == '2' || c == '3' || c == '4' || c == '5' || c == '6' || c == '7'
        || c == '8' || c == '9'
}

/// Value of a digit character; ten for anything else.
pub open spec fn digit_val(c: char) -> int {
    if c == '0' {
        0
    } else if c == '1' {
        1
    } else if c == '2' {
        2
    } else if c == '3' {
        3
    } else if c == '4' {
        4
    } else if c == '5' {
        5
    } else if c == '6' {
        6
    } else if c == '7' {
        7
    } else if c == '8' {
        8
    } else if c == '9' {
        9
    } else {
        10
    }
}

pub open spec fn digit_char(d: int) -> char {
    if d == 0 {
        '0'
    } else if d == 1 {
        '1'
    } else if d == 2 {
        '2'
    } else if d == 3 {
        '3'
    } else if d == 4 {
        '4'
    } else if d == 5 {
        '5'
    } else if d == 6 {
        '6'
    } else if d == 7 {
        '7'
    } else if d == 8 {
        '8'
    } else {
        '9'
    }
}

pub open spec fn all_digits(s: Seq<char>) -> bool {
    forall|i: int| 0 <= i < s.len() ==> is_digit_char(#[trigger] s[i])
}

/// The number a digit string denotes, read left to right.
pub open spec fn digits_val(s: Seq<char>) -> int
    decreases s.len(),
{
    if s.len() == 0 {
        0
    } else {
        digits_val(s.drop_last()) * 10 + digit_val(s.last())
    }
}

/// Decimal rendering of a nonnegative number.
pub open spec fn nat_str(n: int) -> Seq<char>
    decreases n,
{
    if n < 10 {
        seq![digit_char(n)]
    } else {
        nat_str(n / 10).push(digit_char(n % 10))
    }
}

pub open spec fn parse_u64_spec(s: Seq<char>) -> Option<u64> {
    if s.len() >= 1 && all_digits(s) && digits_val(s) <= u64::MAX {
        Some(digits_val(s) as u64)
    } else {
        None
    }
}

pub open spec fn parse_u32_spec(s: Seq<char>) -> Option<u32> {
    if s.len() >= 1 && all_digits(s) && digits_val(s) <= u32::MAX {
        Some(digits_val(s) as u32)
    } else {
        None
    }
}

pub proof fn lemma_digits_val_nonneg(s: Seq<char>)
    ensures
        digits_val(s) >= 0,
    decreases s.len(),
{
    if s.len() != 0 {
        lemma_digits_val_nonneg(s.drop_last());
    }
}

/// A digit string's value only grows as it is extended to the right.
pub proof fn lemma_digits_val_prefix(s: Seq<char>, k: int)
    requires
        0 <= k <= s.len(),
    ensures
        digits_val(s) >= digits_val(s.subrange(0, k)),
    decreases s.len() - k,
{
    if k < s.len() {
        lemma_digits_val_prefix(s, k + 1);
        let p = s.subrange(0, k + 1);
        assert(p.drop_last() =~= s.subrange(0, k));
        lemma_digits_val_nonneg(s.subrange(0, k));
    } else {
        assert(s.subrange(0, k) =~= s);
    }
}

/// Rendering then reading a number is the identity.
pub proof fn lemma_nat_str(n: int)
    requires
        n >= 0,
    ensures
        nat_str(n).len() >= 1,
        all_digits(nat_str(n)),
        digits_val(nat_str(n)) == n,
    decreases n,
{
    if n < 10 {
        assert(nat_str(n) == seq![digit_char(n)]);
        assert(nat_str(n).drop_last() =~= Seq::<char>::empty());
        assert(digits_val(Seq::<char>::empty()) == 0);
        assert(digits_val(nat_str(n)) == 0 * 10 + digit_val(digit_char(n)));
        assert(digit_val(digit_char(n)) == n);
    } else {
        lemma_nat_str(n / 10);
        let r = nat_str(n / 10).push(digit_char(n % 10));
        assert(nat_str(n) == r);
        assert(r.drop_last() =~= nat_str(n / 10));
        assert(r.last() == digit_char(n % 10));
        assert(0 <= n % 10 < 10);
        assert(digit_val(digit_char(n % 10)) == n % 10);
        assert(digits_val(r) == digits_val(nat_str(n / 10)) * 10 + (n % 10));
        assert(n / 10 * 10 + n % 10 == n) by (nonlinear_arith);
        assert forall|i: int| 0 <= i < r.len() implies is_digit_char(#[trigger] r[i]) by {
            if i < r.len() - 1 {
                assert(r[i] == nat_str(n / 10)[i]);
            }
        }
    }
}

/// Digit characters are not whitespace, so digit strings are trim-stable.
pub proof fn lemma_digits_not_space(s: Seq<char>)
    requires
        all_digits(s),
        s.len() >= 1,
    ensures
        trim_spec(s) == s,
{
    assert(is_digit_char(s[0]) && !is_space_char(s[0]));
    assert(trim_start_spec(s) == s);
    assert(is_digit_char(s.last()) && !is_space_char(s.last()));
    assert(trim_end_spec(s) == s);
}

/// Characterization of `trim_start_spec` by the first non-space position.
pub proof fn lemma_trim_start_at(s: Seq<char>, a: int)
    requires
        0 <= a <= s.len(),
        forall|j: int| 0 <= j < a ==> is_space_char(#[trigger] s[j]),
        a == s.len() || !is_space_char(s[a]),
    ensures
        trim_start_spec(s) == s.subrange(a, s.len() as int),
    decreases a,
{
    if a == 0 {
        if s.len() == 0 {
            assert(s.subrange(0, 0) =~= s);
        } else {
            assert(s.subrange(0, s.len() as int) =~= s);
        }
    } else {
        let t = s.drop_first();
        assert(forall|j: int| 0 <= j < a - 1 ==> is_space_char(#[trigger] t[j]));
        assert(a - 1 == t.len() || !is_space_char(t[a - 1]));
        lemma_trim_start_at(t, a - 1);
        assert(t.subrange(a - 1, t.len() as int) =~= s.subrange(a, s.len() as int));
    }
}

/// Characterization of `trim_end_spec` by the last non-space position.
pub proof fn lemma_trim_end_at(s: Seq<char>, b: int)
    requires
        0 <= b <= s.len(),
        forall|j: int| b <= j < s.len() ==> is_space_char(#[trigger] s[j]),
        b == 0 || !is_space_char(s[b - 1]),
    ensures
        trim_end_spec(s) == s.subrange(0, b),
    decreases s.len() - b,
{
    if b == s.len() {
        if b == 0 {
            assert(s.subrange(0, 0) =~= s);
        } else {
            assert(s.subrange(0, b) =~= s);
        }
    } else {
        let t = s.drop_last();
        assert(forall|j: int| b <= j < t.len() ==> is_space_char(#[trigger] t[j]));
        lemma_trim_end_at(t, b);
        assert(t.subrange(0, b) =~= s.subrange(0, b));
    }
}

/// Whitespace on either side of a text does not change its trim.
pub proof fn lemma_trim_pad_start(s: Seq<char>, c: char)
    requires
        is_space_char(c),
    ensures
        trim_spec(seq![c] + s) == trim_spec(s),
{
    let t = seq![c] + s;
    assert(t[0] == c);
    assert(t.drop_first() =~= s);
}

pub proof fn lemma_trim_pad_end(s: Seq<char>, c: char)
    requires
        is_space_char(c),
    ensures
        trim_spec(s.push(c)) == trim_spec(s),
    decreases s.len(),
{
    let t = s.push(c);
    if s.len() == 0 {
        assert(t.drop_first() =~= Seq::<char>::empty());
        assert(trim_start_spec(t) == trim_start_spec(Seq::<char>::empty()));
    } else if is_space_char(s[0]) {
        assert(t[0] == s[0]);
        assert(t.drop_first() =~= s.drop_first().push(c));
        lemma_trim_pad_end(s.drop_first(), c);
    } else {
        assert(t[0] == s[0]);
        assert(trim_start_spec(t) == t);
        assert(trim_start_spec(s) == s);
        assert(t.last() == c);
        assert(t.drop_last() =~= s);
    }
}

/// The views of a sequence of character vectors.
pub open spec fn lines_view(ls: Seq<Vec<char>>) -> Seq<Seq<char>> {
    Seq::new(ls.len(), |i: int| ls[i]@)
}

pub fn is_space(c: char) -> (r: bool)
    ensures
        r == is_space_char(c),
{
    c == ' ' || c == '\t' || c == '\r' || c == '\n'
}

pub fn char_digit(c: char) -> (r: Option<u64>)
    ensures
        r is Some <==> is_digit_char(c),
        r is Some ==> r->0 == digit_val(c) && r->0 < 10,
{
    match c {
        '0' => Some(0),
        '1' => Some(1),
        '2' => Some(2),
        '3' => Some(3),
        '4' => Some(4),
        '5' => Some(5),
        '6' => Some(6),
        '7' => Some(7),
        '8' => Some(8),
        '9' => Some(9),
        _ => None,
    }
}

pub fn digit_to_char(d: u64) -> (c: char)
    requires
        d < 10,
    ensures
        c == digit_char(d as int),
{
    match d {
        0 => '0',
        1 => '1',
        2 => '2',
        3 => '3',
        4 => '4',
        5 => '5',
        6 => '6',
        7 => '7',
        8 => '8',
        _ => '9',
    }
}

/// Whether two character vectors hold the same text.
pub fn chars_eq(a: &Vec<char>, b: &Vec<char>) -> (r: bool)
    ensures
        r == (a@ == b@),
{
    if a.len() != b.len() {
        return false;
    }
    let mut i: usize = 0;
    while i < a.len()
        invariant
            0 <= i <= a.len(),
            a.len() == b.len(),
            forall|j: int| 0 <= j < i ==> a@[j] == b@[j],
        decreases a.len() - i,
    {
        if a[i] != b[i] {
            return false;
        }
        i += 1;
    }
    proof {
        assert(a@ =~= b@);
    }
    true
}

/// The characters of `v` from `a` (inclusive) to `b` (exclusive).
pub fn sub_chars(v: &Vec<char>, a: usize, b: usize) -> (r: Vec<char>)
    requires
        a <= b <= v@.len(),
    ensures
        r@ == v@.subrange(a as int, b as int),
{
    let mut r: Vec<char> = Vec::new();
    let mut i: usize = a;
    while i < b
        invariant
            a <= i <= b <= v@.len(),
            r@ == v@.subrange(a as int, i as int),
        decreases b - i,
    {
        r.push(v[i]);
        proof {
            assert(v@.subrange(a as int, i + 1 as int) =~= v@.subrange(a as int, i as int).push(
                v@[i as int],
            ));
        }
        i += 1;
    }
    r
}

/// Appends the characters of `src` to `dst`.
pub fn extend_chars(dst: &mut Vec<char>, src: &Vec<char>)
    ensures
        final(dst)@ == old(dst)@ + src@,
{
    let mut i: usize = 0;
    while i < src.len()
        invariant
            0 <= i <= src@.len(),
            dst@ == old(dst)@ + src@.subrange(0, i as int),
        decreases src.len() - i,
    {
        dst.push(src[i]);
        proof {
            assert(src@.subrange(0, i + 1 as int) =~= src@.subrange(0, i as int).push(
                src@[i as int],
            ));
            assert(old(dst)@ + src@.subrange(0, i as int).push(src@[i as int]) =~= (old(dst)@
                + src@.subrange(0, i as int)).push(src@[i as int]));
        }
        i += 1;
    }
    proof {
        assert(src@.subrange(0, src@.len() as int) =~= src@);
    }
}

proof fn lemma_trim_start_le(s: Seq<char>)
    ensures
        trim_start_spec(s).len() <= s.len(),
    decreases s.len(),
{
    if s.len() != 0 && is_space_char(s[0]) {
        lemma_trim_start_le(s.drop_first());
    }
}

proof fn lemma_trim_end_le(s: Seq<char>)
    ensures
        trim_end_spec(s).len() <= s.len(),
    decreases s.len(),
{
    if s.len() != 0 && is_space_char(s.last()) {
        lemma_trim_end_le(s.drop_last());
    }
}

/// A text whose ends are not whitespace is its own trim.
pub proof fn lemma_trim_stable_if_ends(s: Seq<char>)
    requires
        s.len() >= 1,
        !is_space_char(s[0]),
        !is_space_char(s.last()),
    ensures
        trim_spec(s) == s,
{
    assert(trim_start_spec(s) == s);
    assert(trim_end_spec(s) == s);
}

/// A trim-stable nonempty text has non-whitespace ends.
pub proof fn lemma_trim_stable_ends(s: Seq<char>)
    requires
        trim_spec(s) == s,
        s.len() >= 1,
    ensures
        !is_space_char(s[0]),
        !is_space_char(s.last()),
{
    if is_space_char(s[0]) {
        lemma_trim_start_le(s.drop_first());
        lemma_trim_end_le(trim_start_spec(s.drop_first()));
        assert(trim_spec(s).len() < s.len());
    }
    assert(trim_start_spec(s) == s);
    if is_space_char(s.last()) {
        lemma_trim_end_le(s.drop_last());
        assert(trim_spec(s).len() < s.len());
    }
}

/// `s` contains no newline.
pub open spec fn no_nl(s: Seq<char>) -> bool {
    forall|i: int| 0 <= i < s.len() ==> #[trigger] s[i] != '\n'
}

pub proof fn lemma_no_nl_trim_start(s: Seq<char>)
    requires
        no_nl(s),
    ensures
        no_nl(trim_start_spec(s)),
    decreases s.len(),
{
    if s.len() != 0 && is_space_char(s[0]) {
        lemma_no_nl_trim_start(s.drop_first());
    }
}

pub proof fn lemma_no_nl_trim_end(s: Seq<char>)
    requires
        no_nl(s),
    ensures
        no_nl(trim_end_spec(s)),
    decreases s.len(),
{
    if s.len() != 0 && is_space_char(s.last()) {
        lemma_no_nl_trim_end(s.drop_last());
    }
}

pub proof fn lemma_no_nl_trim(s: Seq<char>)
    requires
        no_nl(s),
    ensures
        no_nl(trim_spec(s)),
{
    lemma_no_nl_trim_start(s);
    lemma_no_nl_trim_end(trim_start_spec(s));
}

/// `v` with leading whitespace removed.
pub fn trim_start_chars(v: &Vec<char>) -> (r: Vec<char>)
    ensures
        r@ == trim_start_spec(v@),
{
    let mut a: usize = 0;
    while a < v.len() && is_space(v[a])
        invariant
            0 <= a <= v@.len(),
            forall|j: int| 0 <= j < a ==> is_space_char(#[trigger] v@[j]),
        decreases v.len() - a,
    {
        a += 1;
    }
    proof {
        lemma_trim_start_at(v@, a as int);
    }
    sub_chars(v, a, v.len())
}

/// `v` with leading and trailing whitespace removed.
pub fn trim_chars(v: &Vec<char>) -> (r: Vec<char>)
    ensures
        r@ == trim_spec(v@),
{
    let mut a: usize = 0;
    while a < v.len() && is_space(v[a])
        invariant
            0 <= a <= v@.len(),
            forall|j: int| 0 <= j < a ==> is_space_char(#[trigger] v@[j]),
        decreases v.len() - a,
    {
        a += 1;
    }
    proof {
        lemma_trim_start_at(v@, a as int);
    }
    let mut b: usize = v.len();
    while b > a && is_space(v[b - 1])
        invariant
            a <= b <= v@.len(),
            forall|j: int| b <= j < v@.len() ==> is_space_char(#[trigger] v@[j]),
        decreases b,
    {
        b -= 1;
    }
    proof {
        let t = v@.subrange(a as int, v@.len() as int);
        assert(forall|j: int| b - a <= j < t.len() ==> is_space_char(#[trigger] t[j]));
        lemma_trim_end_at(t, b - a as int);
        assert(t.subrange(0, b - a as int) =~= v@.subrange(a as int, b as int));
    }
    sub_chars(v, a, b)
}

/// Splits `v` at every newline.
pub fn split_lines_vec(v: &Vec<char>) -> (r: Vec<Vec<char>>)
    ensures
        lines_view(r@) == split_lines(v@),
{
    let mut out: Vec<Vec<char>> = Vec::new();
    let mut cur: Vec<char> = Vec::new();
    let mut i: usize = 0;
    while i < v.len()
        invariant
            0 <= i <= v@.len(),
            lines_view(out@).push(cur@) == split_lines(v@.subrange(0, i as int)),
        decreases v.len() - i,
    {
        let c = v[i];
        proof {
            assert(v@.subrange(0, i + 1 as int) =~= v@.subrange(0, i as int).push(v@[i as int]));
            lemma_split_lines_snoc(v@.subrange(0, i as int), v@[i as int]);
        }
        if c == '\n' {
            let done = cur;
            cur = Vec::new();
            out.push(done);
            proof {
                assert(lines_view(out@).push(cur@) =~= split_lines(v@.subrange(0, i + 1 as int)));
            }
        } else {
            cur.push(c);
            proof {
                let prev = split_lines(v@.subrange(0, i as int));
                assert(prev.last() == cur@.drop_last());
                assert(cur@.drop_last().push(v@[i as int]) =~= cur@);
                assert(lines_view(out@).push(cur@) =~= prev.update(
                    prev.len() - 1,
                    prev.last().push(v@[i as int]),
                ));
            }
        }
        i += 1;
    }
    proof {
        assert(v@.subrange(0, v@.len() as int) =~= v@);
    }
    out.push(cur);
    proof {
        assert(lines_view(out@) =~= split_lines(v@));
    }
    out
}

/// Joins lines with `'\n'`.
pub fn join_lines_vec(ls: &Vec<Vec<char>>) -> (r: Vec<char>)
    ensures
        r@ == join_lines(lines_view(ls@)),
{
    let mut r: Vec<char> = Vec::new();
    let mut i: usize = 0;
    while i < ls.len()
        invariant
            0 <= i <= ls@.len(),
            r@ == join_lines(lines_view(ls@).subrange(0, i as int)),
        decreases ls.len() - i,
    {
        if i > 0 {
            r.push('\n');
        }
        extend_chars(&mut r, &ls[i]);
        proof {
            let w = lines_view(ls@);
            assert(w.subrange(0, i + 1 as int) =~= w.subrange(0, i as int).push(w[i as int]));
            if i > 0 {
                lemma_join_lines_snoc(w.subrange(0, i as int), w[i as int]);
            } else {
                assert(w.subrange(0, 1) =~= seq![w[0]]);
            }
            assert(r@ == join_lines(w.subrange(0, i + 1 as int)));
        }
        i += 1;
    }
    proof {
        assert(lines_view(ls@).subrange(0, ls@.len() as int) =~= lines_view(ls@));
    }
    r
}

/// Decimal rendering of a number.
pub fn u64_to_chars(n: u64) -> (v: Vec<char>)
    ensures
        v@ == nat_str(n as int),
{
    let mut digs: Vec<char> = Vec::new();
    let mut cur: u64 = n;
    while cur >= 10
        invariant
            nat_str(n as int) == nat_str(cur as int) + digs@.reverse(),
        decreases cur,
    {
        let d = cur % 10;
        digs.push(digit_to_char(d));
        proof {
            assert(nat_str(cur as int) == nat_str(cur as int / 10).push(digit_char(
                cur as int % 10,
            )));
            assert(digs@.reverse() =~= seq![digit_char(cur as int % 10)] + digs@.drop_last(
            ).reverse());
            assert(nat_str(cur as int / 10) + (seq![digit_char(cur as int % 10)]
                + digs@.drop_last().reverse()) =~= (nat_str(cur as int / 10).push(digit_char(
                cur as int % 10,
            ))) + digs@.drop_last().reverse());
            assert(cur as int / 10 == (cur / 10) as int);
        }
        cur = cur / 10;
    }
    digs.push(digit_to_char(cur));
    proof {
        assert(nat_str(cur as int) == seq![digit_char(cur as int)]);
        assert(digs@.reverse() =~= seq![digit_char(cur as int)] + digs@.drop_last().reverse());
        assert(nat_str(n as int) =~= digs@.reverse());
    }
    let mut v: Vec<char> = Vec::new();
    let mut i: usize = digs.len();
    while i > 0
        invariant
            0 <= i <= digs@.len(),
            v@ == digs@.reverse().subrange(0, digs@.len() - i),
        decreases i,
    {
        i -= 1;
        v.push(digs[i]);
        proof {
            assert(digs@.reverse()[digs@.len() - 1 - i as int] == digs@[i as int]);
            assert(digs@.reverse().subrange(0, digs@.len() - i) =~= digs@.reverse().subrange(
                0,
                digs@.len() - i - 1,
            ).push(digs@[i as int]));
        }
    }
    proof {
        assert(digs@.reverse().subrange(0, digs@.len() as int) =~= digs@.reverse());
    }
    v
}

pub fn u32_to_chars(n: u32) -> (v: Vec<char>)
    ensures
        v@ == nat_str(n as int),
{
    u64_to_chars(n as u64)
}

/// Reads a decimal number; `None` on a non-digit, an empty text, or overflow.
pub fn parse_u64_chars(v: &Vec<char>) -> (r: Option<u64>)
    ensures
        r == parse_u64_spec(v@),
{
    if v.len() == 0 {
        return None;
    }
    let mut val: u64 = 0;
    let mut i: usize = 0;
    while i < v.len()
        invariant
            0 <= i <= v@.len(),
            all_digits(v@.subrange(0, i as int)),
            val == digits_val(v@.subrange(0, i as int)),
        decreases v.len() - i,
    {
        proof {
            assert(v@.subrange(0, i + 1 as int) =~= v@.subrange(0, i as int).push(v@[i as int]));
            assert(v@.subrange(0, i + 1 as int).drop_last() =~= v@.subrange(0, i as int));
        }
        match char_digit(v[i]) {
            None => {
                assert(!all_digits(v@));
                return None;
            },
            Some(d) => {
                let step = match val.checked_mul(10) {
                    None => None,
                    Some(m) => m.checked_add(d),
                };
                match step {
                    None => {
                        proof {
                            assert(digits_val(v@.subrange(0, i + 1 as int)) > u64::MAX);
                            lemma_digits_val_prefix(v@, i + 1 as int);
                        }
                        return None;
                    },
                    Some(nv) => {
                        val = nv;
                    },
                }
            },
        }
        i += 1;
    }
    proof {
        assert(v@.subrange(0, v@.len() as int) =~= v@);
    }
    Some(val)
}

pub fn parse_u32_chars(v: &Vec<char>) -> (r: Option<u32>)
    ensures
        r == parse_u32_spec(v@),
{
    match parse_u64_chars(v) {
        None => {
            proof {
                if v@.len() >= 1 && all_digits(v@) {
                    assert(digits_val(v@) > u64::MAX);
                }
            }
            None
        },
        Some(x) => {
            proof {
                lemma_digits_val_nonneg(v@);
            }
            if x <= 0xffff_ffff {
                Some(x as u32)
            } else {
                None
            }
        },
    }
}

/// Relies on `String::push`: appends one character to the string.
#[verifier::external_body]
fn push_char(s: &mut String, c: char)
    ensures
        final(s)@ == old(s)@.push(c),
{
    s.push(c);
}

/// Builds a `String` holding exactly the given characters.
pub fn string_of_chars(v: &Vec<char>) -> (s: String)
    ensures
        s@ == v@,
{
    let mut s = String::new();
    let mut i: usize = 0;
    while i < v.len()
        invariant
            0 <= i <= v@.len(),
            s@ == v@.subrange(0, i as int),
        decreases v.len() - i,
    {
        push_char(&mut s, v[i]);
        proof {
            assert(v@.subrange(0, i + 1 as int) =~= v@.subrange(0, i as int).push(v@[i as int]));
        }
        i += 1;
    }
    proof {
        assert(v@.subrange(0, v@.len() as int) =~= v@);
    }
    s
}

/// A `String` with the same characters as the given slice.
pub fn str_to_string(s: &str) -> (r: String)
    ensures
        r@ == s@,
{
    let v = chars_of_str(s);
    string_of_chars(&v)
}

/// The characters of a string slice, in order.
pub fn chars_of_str(s: &str) -> (v: Vec<char>)
    ensures
        v@ == s@,
{
    let n = s.unicode_len();
    let mut v: Vec<char> = Vec::new();
    let mut i: usize = 0;
    while i < n
        invariant
            0 <= i <= n,
            n == s@.len(),
            v@ == s@.subrange(0, i as int),
        decreases n - i,
    {
        v.push(s.get_char(i));
        proof {
            assert(s@.subrange(0, i + 1 as int) =~= s@.subrange(0, i as int).push(s@[i as int]));
        }
        i += 1;
    }
    proof {
        assert(s@.subrange(0, s@.len() as int) =~= s@);
    }
    v
}

} // verus!
