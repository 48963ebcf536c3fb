//! Text as sequences of characters: the searches, splits and number formats
//! that the rest of the library states its contracts over.

use vstd::prelude::*;

verus! {

/// `String::push` of std: appends one character.
pub assume_specification[ String::push ](s: &mut String, c: char)
    ensures
        final(s)@ == old(s)@.push(c),
;

/// The characters of `s`, in order.
pub fn chars_of(s: &str) -> (v: Vec<char>)
    ensures
        v@ == s@,
{
    let mut v: Vec<char> = Vec::new();
    for c in it: s.chars()
        invariant
            v@ == it.seq().take(it.index()),
            it.seq() == s@,
    {
        v.push(c);
    }
    v
}

/// The string made of the characters `v[from..to]`.
pub fn string_of(v: &Vec<char>, from: usize, to: usize) -> (s: String)
    requires
        from <= to <= v.len(),
    ensures
        s@ == v@.subrange(from as int, to as int),
{
    let mut s = String::new();
    let mut i: usize = from;
    while i < to
        invariant
            from <= i <= to <= v.len(),
            s@ == v@.subrange(from as int, i as int),
        decreases to - i,
    {
        s.push(v[i]);
        i += 1;
        assert(v@.subrange(from as int, i as int) == v@.subrange(from as int, i - 1).push(
            v@[i - 1],
        ));
    }
    s
}

/// Whether `s` begins with `p`.
pub fn starts_with(s: &Vec<char>, p: &Vec<char>) -> (r: bool)
    ensures
        r == p@.is_prefix_of(s@),
{
    if p.len() > s.len() {
        return false;
    }
    let mut i: usize = 0;
    while i < p.len()
        invariant
            i <= p.len() <= s.len(),
            forall|j: int| 0 <= j < i ==> s@[j] == p@[j],
        decreases p.len() - i,
    {
        if s[i] != p[i] {
            return false;
        }
        i += 1;
    }
    true
}

/// Whether `s` ends with `p`.
pub fn ends_with(s: &Vec<char>, p: &Vec<char>) -> (r: bool)
    ensures
        r == p@.is_suffix_of(s@),
{
    if p.len() > s.len() {
        return false;
    }
    let d: usize = s.len() - p.len();
    let mut i: usize = 0;
    while i < p.len()
        invariant
            i <= p.len() <= s.len(),
            d == s.len() - p.len(),
            forall|j: int| 0 <= j < i ==> s@[d + j] == p@[j],
        decreases p.len() - i,
    {
        if s[d + i] != p[i] {
            return false;
        }
        i += 1;
    }
    true
}

/// The least index at which `c` stands in `s`, or the length of `s` where it
/// stands nowhere.
pub open spec fn first_index(s: Seq<char>, c: char) -> int
    decreases s.len(),
{
    if s.len() == 0 {
        0
    } else if s[0] == c {
        0
    } else {
        1 + first_index(s.drop_first(), c)
    }
}

/// `first_index` is in range, nothing before it is `c`, and `c` stands at it
/// where it is an index.
pub proof fn lemma_first_index(s: Seq<char>, c: char)
    ensures
        0 <= first_index(s, c) <= s.len(),
        forall|j: int| 0 <= j < first_index(s, c) ==> s[j] != c,
        first_index(s, c) < s.len() ==> s[first_index(s, c)] == c,
    decreases s.len(),
{
    if s.len() != 0 && s[0] != c {
        let t = s.drop_first();
        lemma_first_index(t, c);
        assert forall|j: int| 0 <= j < first_index(s, c) implies s[j] != c by {
            if j > 0 {
                assert(s[j] == t[j - 1]);
            }
        }
    }
}

/// An index with nothing equal to `c` before it, and either `c` at it or the
/// end of `s`, is `first_index`.
pub proof fn lemma_first_index_is(s: Seq<char>, c: char, k: int)
    requires
        0 <= k <= s.len(),
        forall|j: int| 0 <= j < k ==> s[j] != c,
        k < s.len() ==> s[k] == c,
    ensures
        first_index(s, c) == k,
{
    lemma_first_index(s, c);
}

/// The index of the first `c` in `s`.
pub fn find_char(s: &Vec<char>, from: usize, c: char) -> (r: usize)
    requires
        from <= s.len(),
    ensures
        r == from + first_index(s@.skip(from as int), c),
        from <= r <= s.len(),
{
    let mut i: usize = from;
    while i < s.len() && s[i] != c
        invariant
            from <= i <= s.len(),
            forall|j: int| from <= j < i ==> s@[j] != c,
        decreases s.len() - i,
    {
        i += 1;
    }
    proof {
        lemma_first_index_is(s@.skip(from as int), c, i - from);
    }
    i
}

/// The pieces of `s` between occurrences of `sep`: one more piece than there
/// are separators, so the empty text has one empty piece.
pub open spec fn split(s: Seq<char>, sep: char) -> Seq<Seq<char>>
    decreases s.len(),
{
    let i = first_index(s, sep);
    if i < 0 || i >= s.len() {
        seq![s]
    } else {
        seq![s.take(i)] + split(s.skip(i + 1), sep)
    }
}

/// What a list of character vectors holds: the view of each, in order.
pub open spec fn texts(v: Seq<Vec<char>>) -> Seq<Seq<char>> {
    Seq::new(v.len(), |i: int| v[i]@)
}

/// What a list of strings holds: the view of each, in order.
pub open spec fn strings(v: Seq<String>) -> Seq<Seq<char>> {
    Seq::new(v.len(), |i: int| v[i]@)
}

/// Pushing a string pushes its text.
pub proof fn lemma_strings_push(v: Seq<String>, x: String)
    ensures
        strings(v.push(x)) == strings(v).push(x@),
{
    assert(strings(v.push(x)) =~= strings(v).push(x@));
}

/// Pushing a vector pushes its text.
pub proof fn lemma_texts_push(v: Seq<Vec<char>>, x: Vec<char>)
    ensures
        texts(v.push(x)) == texts(v).push(x@),
{
    assert(texts(v.push(x)) =~= texts(v).push(x@));
}

/// The pieces of `s` between occurrences of `sep`.
pub fn split_chars(s: &Vec<char>, sep: char) -> (out: Vec<Vec<char>>)
    ensures
        texts(out@) == split(s@, sep),
{
    let mut out: Vec<Vec<char>> = Vec::new();
    let mut start: usize = 0;
    assert(texts(out@) + split(s@.skip(0), sep) =~= split(s@, sep)) by {
        assert(s@.skip(0) == s@);
    }
    loop
        invariant
            start <= s.len(),
            texts(out@) + split(s@.skip(start as int), sep) == split(s@, sep),
        decreases s.len() - start,
    {
        let end = find_char(s, start, sep);
        let piece = slice_of(s, start, end);
        let ghost rest = s@.skip(start as int);
        let ghost before = texts(out@);
        proof {
            lemma_first_index(rest, sep);
            assert(rest.take(end - start) == s@.subrange(start as int, end as int));
        }
        out.push(piece);
        assert(texts(out@) =~= before.push(piece@));
        if end == s.len() {
            assert(rest.take(end - start) == rest);
            assert(before.push(rest) == before + seq![rest]);
            return out;
        }
        proof {
            assert(rest.skip(end - start + 1) == s@.skip(end + 1));
            assert(before.push(piece@) + split(s@.skip(end + 1), sep) == before + (seq![piece@]
                + split(s@.skip(end + 1), sep)));
        }
        start = end + 1;
    }
}

/// A copy of `v[from..to]`.
pub fn slice_of(v: &Vec<char>, from: usize, to: usize) -> (out: Vec<char>)
    requires
        from <= to <= v.len(),
    ensures
        out@ == v@.subrange(from as int, to as int),
{
    let mut out: Vec<char> = Vec::new();
    let mut i: usize = from;
    while i < to
        invariant
            from <= i <= to <= v.len(),
            out@ == v@.subrange(from as int, i as int),
        decreases to - i,
    {
        out.push(v[i]);
        i += 1;
        assert(v@.subrange(from as int, i as int) == v@.subrange(from as int, i - 1).push(
            v@[i - 1],
        ));
    }
    out
}

/// Whether `c` is one of the ten decimal digits `0` to `9`.
pub open spec fn is_digit(c: char) -> bool {
    '0' <= c <= '9'
}

/// Whether every character of `s` is a decimal digit.
pub open spec fn all_digits(s: Seq<char>) -> bool {
    forall|i: int| 0 <= i < s.len() ==> is_digit(#[trigger] s[i])
}

/// The number that a run of decimal digits writes, most significant first.
pub open spec fn decimal_value(s: Seq<char>) -> nat
    decreases s.len(),
{
    if s.len() == 0 {
        0
    } else {
        (decimal_value(s.drop_last()) * 10 + (s.last() as int - '0' as int)) as nat
    }
}

/// The digit that writes `d`, for `d` below ten.
pub open spec fn digit_char(d: nat) -> char {
    ('0' as int + d) as char
}

/// `n` in decimal, without leading zeros; zero is written `0`.
pub open spec fn decimal_text(n: nat) -> Seq<char>
    decreases n,
{
    if n < 10 {
        seq![digit_char(n)]
    } else {
        decimal_text(n / 10).push(digit_char(n % 10))
    }
}

/// `n` in decimal, with zeros in front up to `width` characters.
pub open spec fn zero_padded(n: nat, width: nat) -> Seq<char> {
    let t = decimal_text(n);
    if t.len() >= width {
        t
    } else {
        Seq::new((width - t.len()) as nat, |i: int| '0') + t
    }
}

/// What std's integer parsing makes of `s` for an unsigned type whose greatest
/// value is `max`: an optional `+`, then at least one digit and digits only,
/// and a value within the type.
pub open spec fn parsed_number(s: Seq<char>, max: nat) -> Option<nat> {
    let digits = if s.len() > 0 && s[0] == '+' {
        s.skip(1)
    } else {
        s
    };
    if digits.len() > 0 && all_digits(digits) && decimal_value(digits) <= max {
        Some(decimal_value(digits))
    } else {
        None
    }
}

/// A run of digits writes at least what any of its beginnings writes.
pub proof fn lemma_decimal_value_grows(s: Seq<char>, k: int)
    requires
        all_digits(s),
        0 <= k <= s.len(),
    ensures
        decimal_value(s.take(k)) <= decimal_value(s),
    decreases s.len() - k,
{
    if k < s.len() {
        lemma_decimal_value_grows(s, k + 1);
        assert(s.take(k + 1).drop_last() == s.take(k));
        assert(is_digit(s[k]));
    } else {
        assert(s.take(k) == s);
    }
}

/// Whether `c` is a decimal digit.
pub fn is_digit_char(c: char) -> (r: bool)
    ensures
        r == is_digit(c),
{
    c >= '0' && c <= '9'
}

/// Reads `s[from..]` as an unsigned decimal number no greater than `max`.
pub fn parse_number(s: &Vec<char>, from: usize, max: u64) -> (r: Option<u64>)
    requires
        from <= s.len(),
    ensures
        r matches Some(v) ==> parsed_number(s@.skip(from as int), max as nat) == Some(v as nat),
        r is None ==> parsed_number(s@.skip(from as int), max as nat) is None,
{
    let ghost whole = s@.skip(from as int);
    let start: usize = if from < s.len() && s[from] == '+' {
        from + 1
    } else {
        from
    };
    let ghost digits = s@.skip(start as int);
    assert(digits == if whole.len() > 0 && whole[0] == '+' {
        whole.skip(1)
    } else {
        whole
    });
    if start == s.len() {
        return None;
    }
    let mut acc: u64 = 0;
    let mut i: usize = start;
    while i < s.len()
        invariant
            start <= i <= s.len(),
            digits == s@.skip(start as int),
            whole == s@.skip(from as int),
            digits == if whole.len() > 0 && whole[0] == '+' {
                whole.skip(1)
            } else {
                whole
            },
            all_digits(digits.take(i - start)),
            acc == decimal_value(digits.take(i - start)),
            acc <= max,
        decreases s.len() - i,
    {
        let c = s[i];
        if !is_digit_char(c) {
            assert(!is_digit(digits[i - start]));
            return None;
        }
        let d: u64 = (c as u32 - '0' as u32) as u64;
        proof {
            let t = digits.take(i - start + 1);
            assert(t.drop_last() == digits.take(i - start));
            assert(t.last() == c);
            assert(all_digits(t)) by {
                assert forall|j: int| 0 <= j < t.len() implies is_digit(#[trigger] t[j]) by {
                    if j < i - start {
                        assert(t[j] == digits.take(i - start)[j]);
                    }
                }
            }
            assert(decimal_value(t) == acc * 10 + d);
        }
        if d > max || acc > (max - d) / 10 {
            proof {
                if all_digits(digits) {
                    lemma_decimal_value_grows(digits, i - start + 1);
                }
            }
            return None;
        }
        acc = acc * 10 + d;
        i += 1;
    }
    assert(digits.take(i - start) == digits);
    Some(acc)
}

/// Appends `n` in decimal to `out`.
pub fn push_decimal(out: &mut Vec<char>, n: u64)
    ensures
        final(out)@ == old(out)@ + decimal_text(n as nat),
    decreases n,
{
    if n >= 10 {
        push_decimal(out, n / 10);
    }
    let d: u8 = (n % 10) as u8;
    out.push((48u8 + d) as char);
    proof {
        let last = digit_char((n % 10) as nat);
        if n >= 10 {
            assert(old(out)@ + decimal_text((n / 10) as nat).push(last) =~= (old(out)@
                + decimal_text((n / 10) as nat)).push(last));
        } else {
            assert(old(out)@ + seq![last] =~= old(out)@.push(last));
        }
    }
}

/// The number of characters of `n` in decimal.
pub fn decimal_width(n: u64) -> (w: usize)
    ensures
        w == decimal_text(n as nat).len(),
        1 <= w <= 20,
    decreases n,
{
    if n < 10 {
        1
    } else {
        let w = decimal_width(n / 10);
        proof {
            lemma_decimal_text_len(n as nat);
        }
        w + 1
    }
}

/// A number below `10^20` has at most twenty digits.
pub proof fn lemma_decimal_text_len(n: nat)
    requires
        n <= u64::MAX,
    ensures
        1 <= decimal_text(n).len() <= 20,
{
    reveal_with_fuel(decimal_text, 21);
}

/// Appends `n` in decimal to `out`, with zeros in front up to `width`
/// characters.
pub fn push_zero_padded(out: &mut Vec<char>, n: u64, width: usize)
    ensures
        final(out)@ == old(out)@ + zero_padded(n as nat, width as nat),
{
    let w = decimal_width(n);
    let ghost before = out@;
    let mut i: usize = w;
    while i < width
        invariant
            w <= i,
            i == w || i <= width,
            out@ == before + Seq::new((i - w) as nat, |j: int| '0'),
        decreases width - i,
    {
        out.push('0');
        i += 1;
        assert(out@ =~= before + Seq::new((i - w) as nat, |j: int| '0'));
    }
    let ghost zeros = Seq::new((i - w) as nat, |j: int| '0');
    push_decimal(out, n);
    assert(out@ =~= before + (zeros + decimal_text(n as nat)));
    assert(w < width ==> zeros + decimal_text(n as nat) == zero_padded(n as nat, width as nat));
    assert(w >= width ==> zeros + decimal_text(n as nat) =~= decimal_text(n as nat));
}

/// Whether `pat` stands in `s` at index `i`.
pub open spec fn occurs_at(s: Seq<char>, pat: Seq<char>, i: int) -> bool {
    0 <= i && i + pat.len() <= s.len() && s.subrange(i, i + pat.len()) == pat
}

/// Whether `pat` stands somewhere in `s`.
pub open spec fn contains_text(s: Seq<char>, pat: Seq<char>) -> bool {
    exists|i: int| occurs_at(s, pat, i)
}

/// The greatest index up to `k` at which `pat` stands in `s`, or -1.
pub open spec fn last_occurrence_upto(s: Seq<char>, pat: Seq<char>, k: int) -> int
    decreases k + 1,
{
    if k < 0 {
        -1
    } else if occurs_at(s, pat, k) {
        k
    } else {
        last_occurrence_upto(s, pat, k - 1)
    }
}

/// The greatest index at which `pat` stands in `s`, or -1 where it stands
/// nowhere.
pub open spec fn last_occurrence(s: Seq<char>, pat: Seq<char>) -> int {
    last_occurrence_upto(s, pat, s.len() - pat.len())
}

/// Whether `pat` stands in `s` at index `i`.
pub fn matches_at(s: &Vec<char>, pat: &Vec<char>, i: usize) -> (r: bool)
    ensures
        r == occurs_at(s@, pat@, i as int),
{
    if pat.len() > s.len() || i > s.len() - pat.len() {
        return false;
    }
    let mut j: usize = 0;
    while j < pat.len()
        invariant
            j <= pat.len(),
            i + pat.len() <= s.len(),
            forall|k: int| 0 <= k < j ==> s@[i + k] == pat@[k],
        decreases pat.len() - j,
    {
        if s[i + j] != pat[j] {
            assert(s@.subrange(i as int, i + pat.len())[j as int] != pat@[j as int]);
            return false;
        }
        j += 1;
    }
    assert(s@.subrange(i as int, i + pat.len()) =~= pat@);
    true
}

/// Whether `pat` stands somewhere in `s`.
pub fn contains(s: &Vec<char>, pat: &Vec<char>) -> (r: bool)
    ensures
        r == contains_text(s@, pat@),
{
    if pat.len() > s.len() {
        return false;
    }
    let last: usize = s.len() - pat.len();
    let mut i: usize = 0;
    loop
        invariant
            last == s.len() - pat.len(),
            i <= last,
            forall|k: int| 0 <= k < i ==> !occurs_at(s@, pat@, k),
        decreases last - i,
    {
        if matches_at(s, pat, i) {
            return true;
        }
        if i == last {
            return false;
        }
        i += 1;
    }
}

/// The index of the last occurrence of `pat` in `s`.
pub fn rfind(s: &Vec<char>, pat: &Vec<char>) -> (r: Option<usize>)
    ensures
        r matches Some(i) ==> i == last_occurrence(s@, pat@) && occurs_at(s@, pat@, i as int),
        r is None ==> last_occurrence(s@, pat@) == -1,
{
    if pat.len() > s.len() {
        return None;
    }
    let mut k: usize = s.len() - pat.len();
    loop
        invariant
            k <= s.len() - pat.len(),
            last_occurrence(s@, pat@) == last_occurrence_upto(s@, pat@, k as int),
        decreases k,
    {
        if matches_at(s, pat, k) {
            return Some(k);
        }
        if k == 0 {
            assert(last_occurrence_upto(s@, pat@, -1) == -1);
            return None;
        }
        k -= 1;
    }
}

/// The number of decimal digits that stand in `s` from index `i` on without
/// a break.
pub open spec fn run_length(s: Seq<char>, i: int) -> nat
    decreases s.len() - i,
{
    if 0 <= i < s.len() && is_digit(s[i]) {
        1 + run_length(s, i + 1)
    } else {
        0
    }
}

/// The index before `n` from which the most digits stand in a row, the first
/// of them where several are equal; 0 where `n` is 0.
pub open spec fn longest_run_start(s: Seq<char>, n: int) -> int
    decreases n,
{
    if n <= 0 {
        0
    } else {
        let best = longest_run_start(s, n - 1);
        if run_length(s, n - 1) > run_length(s, best) {
            n - 1
        } else {
            best
        }
    }
}

/// The longest run of consecutive decimal digits of `s`, the first where two
/// are equally long; empty where `s` holds no digit.
pub open spec fn digits_of(s: Seq<char>) -> Seq<char> {
    let start = longest_run_start(s, s.len() as int);
    s.subrange(start, start + run_length(s, start))
}

/// A run lies within the text and is made of digits.
pub proof fn lemma_run(s: Seq<char>, i: int)
    requires
        0 <= i <= s.len(),
    ensures
        i + run_length(s, i) <= s.len(),
        forall|k: int| 0 <= k < run_length(s, i) ==> is_digit(#[trigger] s[i + k]),
    decreases s.len() - i,
{
    if i < s.len() && is_digit(s[i]) {
        lemma_run(s, i + 1);
        assert forall|k: int| 0 <= k < run_length(s, i) implies is_digit(#[trigger] s[i + k]) by {
            if k > 0 {
                assert(s[i + 1 + (k - 1)] == s[i + k]);
            }
        }
    }
}

/// The longest run starts at an index of the text, or at 0.
pub proof fn lemma_longest_run_start(s: Seq<char>, n: int)
    requires
        0 <= n <= s.len(),
    ensures
        0 <= longest_run_start(s, n) <= s.len(),
        n > 0 ==> longest_run_start(s, n) < n,
    decreases n,
{
    if n > 0 {
        lemma_longest_run_start(s, n - 1);
    }
}

/// The longest run of consecutive decimal digits of `s`, the first where two
/// are equally long.
pub fn digit_run(s: &Vec<char>) -> (out: Vec<char>)
    ensures
        out@ == digits_of(s@),
        all_digits(out@),
{
    let n = s.len();
    if n == 0 {
        assert(s@.subrange(0, 0) =~= Seq::<char>::empty());
        return Vec::new();
    }
    let mut runs: Vec<usize> = Vec::with_capacity(n);
    let mut filled: usize = 0;
    while filled < n
        invariant
            filled <= n,
            runs.len() == filled,
        decreases n - filled,
    {
        runs.push(0);
        filled += 1;
    }
    let mut i: usize = n;
    while i > 0
        invariant
            i <= n == s.len(),
            runs.len() == n,
            forall|j: int| i <= j < n ==> #[trigger] runs[j] == run_length(s@, j),
        decreases i,
    {
        i -= 1;
        proof {
            lemma_run(s@, i + 1);
        }
        let here: usize = if !is_digit_char(s[i]) {
            0
        } else if i + 1 < n {
            runs[i + 1] + 1
        } else {
            1
        };
        runs.set(i, here);
    }
    let mut best: usize = 0;
    let mut k: usize = 0;
    while k < n
        invariant
            k <= n == s.len(),
            runs.len() == n,
            forall|j: int| 0 <= j < n ==> #[trigger] runs[j] == run_length(s@, j),
            best == longest_run_start(s@, k as int),
            best < n,
        decreases n - k,
    {
        if runs[k] > runs[best] {
            best = k;
        }
        k += 1;
    }
    proof {
        lemma_run(s@, best as int);
    }
    let out = slice_of(s, best, best + runs[best]);
    assert(all_digits(out@)) by {
        assert forall|j: int| 0 <= j < out@.len() implies is_digit(#[trigger] out@[j]) by {
            assert(out@[j] == s@[best + j]);
        }
    }
    out
}

/// Whether two character vectors hold the same text.
pub fn same_chars(a: &Vec<char>, b: &Vec<char>) -> (r: bool)
    ensures
        r == (a@ == b@),
{
    if a.len() != b.len() {
        return false;
    }
    let mut i: usize = 0;
    while i < a.len()
        invariant
            i <= a.len() == b.len(),
            forall|j: int| 0 <= j < i ==> a@[j] == b@[j],
        decreases a.len() - i,
    {
        if a[i] != b[i] {
            return false;
        }
        i += 1;
    }
    assert(a@ =~= b@);
    true
}

/// Whether two strings hold the same text.
pub fn same_text(a: &str, b: &str) -> (r: bool)
    ensures
        r == (a@ == b@),
{
    same_chars(&chars_of(a), &chars_of(b))
}

/// The string made of all of `v`.
pub fn to_string(v: &Vec<char>) -> (s: String)
    ensures
        s@ == v@,
{
    let s = string_of(v, 0, v.len());
    assert(v@.subrange(0, v.len() as int) =~= v@);
    s
}

/// Appends the characters of `s` to `out`.
pub fn push_str(out: &mut Vec<char>, s: &str)
    ensures
        final(out)@ == old(out)@ + s@,
{
    let v = chars_of(s);
    let mut i: usize = 0;
    assert(old(out)@ + v@.take(0) =~= old(out)@);
    while i < v.len()
        invariant
            i <= v.len(),
            out@ == old(out)@ + v@.take(i as int),
        decreases v.len() - i,
    {
        out.push(v[i]);
        i += 1;
        assert(old(out)@ + v@.take(i as int) =~= (old(out)@ + v@.take(i - 1)).push(v@[i - 1]));
    }
    assert(v@.take(i as int) =~= v@);
}

/// `s` without one carriage return at its end.
pub open spec fn strip_cr(s: Seq<char>) -> Seq<char> {
    if s.len() > 0 && s.last() == '\r' {
        s.drop_last()
    } else {
        s
    }
}

/// The lines of `s`. A line ends with a line feed, which is no part of it, nor
/// is a carriage return just before that line feed. What follows the last
/// line feed is a line too unless it is empty.
pub open spec fn lines(s: Seq<char>) -> Seq<Seq<char>> {
    let parts = split(s, '\n');
    let ended = Seq::new((parts.len() - 1) as nat, |i: int| strip_cr(parts[i]));
    if parts.last().len() == 0 {
        ended
    } else {
        ended.push(parts.last())
    }
}

/// A split has at least one piece.
pub proof fn lemma_split_len(s: Seq<char>, sep: char)
    ensures
        split(s, sep).len() >= 1,
    decreases s.len(),
{
    let i = first_index(s, sep);
    if !(i < 0 || i >= s.len()) {
        lemma_split_len(s.skip(i + 1), sep);
    }
}

/// The lines of `s`.
pub fn lines_of(s: &Vec<char>) -> (out: Vec<Vec<char>>)
    ensures
        texts(out@) == lines(s@),
{
    let parts = split_chars(s, '\n');
    proof {
        lemma_split_len(s@, '\n');
    }
    let ghost all = split(s@, '\n');
    let ghost ended = Seq::new((all.len() - 1) as nat, |i: int| strip_cr(all[i]));
    let n: usize = parts.len() - 1;
    let mut out: Vec<Vec<char>> = Vec::new();
    let mut i: usize = 0;
    while i < n
        invariant
            i <= n == parts.len() - 1,
            texts(parts@) == all,
            texts(out@) == ended.take(i as int),
            ended == Seq::new((all.len() - 1) as nat, |i: int| strip_cr(all[i])),
        decreases n - i,
    {
        let part = &parts[i];
        assert(part@ == all[i as int]);
        let line = if part.len() > 0 && part[part.len() - 1] == '\r' {
            slice_of(part, 0, part.len() - 1)
        } else {
            slice_of(part, 0, part.len())
        };
        assert(line@ =~= strip_cr(part@));
        proof {
            lemma_texts_push(out@, line);
        }
        out.push(line);
        i += 1;
        assert(ended.take(i as int) =~= ended.take(i - 1).push(ended[i - 1]));
    }
    assert(ended.take(n as int) =~= ended);
    let last = &parts[n];
    assert(last@ == all.last());
    if last.len() > 0 {
        let line = slice_of(last, 0, last.len());
        assert(line@ =~= last@);
        proof {
            lemma_texts_push(out@, line);
        }
        out.push(line);
    }
    out
}

/// A number written in decimal is made of digits, begins with none but a
/// significant one unless it is 0, and writes that number.
pub proof fn lemma_decimal_text(n: nat)
    ensures
        decimal_text(n).len() >= 1,
        all_digits(decimal_text(n)),
        decimal_value(decimal_text(n)) == n,
        n >= 1 ==> decimal_text(n)[0] != '0',
    decreases n,
{
    if n < 10 {
        let t = decimal_text(n);
        assert(t.drop_last().len() == 0);
        assert(decimal_value(t.drop_last()) == 0);
    } else {
        lemma_decimal_text(n / 10);
        let t = decimal_text(n / 10);
        let text = decimal_text(n);
        assert(text.drop_last() =~= t);
        assert(text[0] == t[0]);
        assert forall|i: int| 0 <= i < text.len() implies is_digit(#[trigger] text[i]) by {
            if i < t.len() {
                assert(text[i] == t[i]);
            }
        }
    }
}

/// Digits that begin with a significant one are the decimal writing of the
/// number they write.
pub proof fn lemma_decimal_value_text(s: Seq<char>)
    requires
        s.len() >= 1,
        all_digits(s),
        s[0] != '0',
    ensures
        decimal_text(decimal_value(s)) == s,
        decimal_value(s) >= 1,
    decreases s.len(),
{
    let t = s.drop_last();
    assert(is_digit(s.last()));
    if s.len() == 1 {
        assert(t.len() == 0);
        assert(decimal_value(t) == 0);
        assert(decimal_text(decimal_value(s)) =~= s);
    } else {
        assert(t[0] == s[0]);
        assert forall|i: int| 0 <= i < t.len() implies is_digit(#[trigger] t[i]) by {
            assert(t[i] == s[i]);
        }
        lemma_decimal_value_text(t);
        let v = decimal_value(s);
        assert(v / 10 == decimal_value(t) && v % 10 == s.last() as int - '0' as int);
        assert(decimal_text(v) =~= s);
    }
}

} // verus!
