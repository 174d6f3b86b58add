//! Verified character-level text utilities.
//!
//! All engine parsing works on `Vec<char>` buffers whose views are the
//! `Seq<char>` views of the strings they came from, so every contract can be
//! stated directly over string views.

use vstd::prelude::*;

verus! {

/// Relies on `String::push`: appends one character to the string.
#[verifier::external_body]
pub fn push_char(s: &mut String, c: char)
    ensures
        final(s)@ == old(s)@.push(c),
{
    s.push(c);
}

/// Collect the characters of a string slice into a vector.
pub fn chars_of(s: &str) -> (r: Vec<char>)
    ensures
        r@ == s@,
{
    let n = s.unicode_len();
    let mut v: Vec<char> = Vec::new();
    let mut i: usize = 0;
    while i < n
        invariant
            i <= n,
            n == s@.len(),
            v@ == s@.subrange(0, i as int),
        decreases n - i,
    {
        v.push(s.get_char(i));
        i += 1;
        proof {
            assert(v@ =~= s@.subrange(0, i as int));
        }
    }
    proof {
        assert(v@ =~= s@);
    }
    v
}

/// Build a string from a vector of characters.
pub fn string_from_chars(v: &Vec<char>) -> (r: String)
    ensures
        r@ == v@,
{
    let mut s = String::new();
    let mut i: usize = 0;
    while i < v.len()
        invariant
            i <= v.len(),
            s@ == v@.subrange(0, i as int),
        decreases v.len() - i,
    {
        push_char(&mut s, v[i]);
        i += 1;
        proof {
            assert(s@ =~= v@.subrange(0, i as int));
        }
    }
    proof {
        assert(s@ =~= v@);
    }
    s
}

/// Whether `s` begins with the prefix `p`.
pub open spec fn spec_starts_with(s: Seq<char>, p: Seq<char>) -> bool {
    p.len() <= s.len() && s.subrange(0, p.len() as int) == p
}

pub fn starts_with_chars(s: &Vec<char>, p: &Vec<char>) -> (r: bool)
    ensures
        r == spec_starts_with(s@, p@),
{
    if p.len() > s.len() {
        proof {
            assert(!spec_starts_with(s@, p@));
        }
        return false;
    }
    let mut i: usize = 0;
    while i < p.len()
        invariant
            i <= p.len() <= s.len(),
            forall|j: int| 0 <= j < i ==> s@[j] == p@[j],
        decreases p.len() - i,
    {
        if s[i] != p[i] {
            proof {
                assert(s@.subrange(0, p@.len() as int)[i as int] != p@[i as int]);
            }
            return false;
        }
        i += 1;
    }
    proof {
        assert(s@.subrange(0, p@.len() as int) =~= p@);
    }
    true
}

pub fn chars_equal(s: &Vec<char>, p: &Vec<char>) -> (r: bool)
    ensures
        r == (s@ == p@),
{
    if s.len() != p.len() {
        return false;
    }
    let r = starts_with_chars(s, p);
    proof {
        assert(s@ =~= s@.subrange(0, p@.len() as int));
    }
    r
}

/// The whitespace characters the engine trims: ASCII blanks and line ends.
pub open spec fn is_space_char(c: char) -> bool {
    c == ' ' || c == '\t' || c == '\r' || c == '\n'
}

pub fn space_char(c: char) -> (r: bool)
    ensures
        r == is_space_char(c),
{
    c == ' ' || c == '\t' || c == '\r' || c == '\n'
}

/// `s` with leading whitespace removed.
pub open spec fn trim_front(s: Seq<char>) -> Seq<char>
    decreases s.len(),
{
    if s.len() > 0 && is_space_char(s[0]) {
        trim_front(s.drop_first())
    } else {
        s
    }
}

/// `s` with trailing whitespace removed.
pub open spec fn trim_back(s: Seq<char>) -> Seq<char>
    decreases s.len(),
{
    if s.len() > 0 && is_space_char(s.last()) {
        trim_back(s.drop_last())
    } else {
        s
    }
}

/// `s` with both leading and trailing whitespace removed.
pub open spec fn spec_trim(s: Seq<char>) -> Seq<char> {
    trim_back(trim_front(s))
}

proof fn lemma_trim_front_skip(s: Seq<char>, i: int)
    requires
        0 <= i <= s.len(),
        forall|j: int| 0 <= j < i ==> is_space_char(s[j]),
        i < s.len() ==> !is_space_char(s[i]),
    ensures
        trim_front(s) == s.skip(i),
    decreases i,
{
    if i == 0 {
        assert(s.skip(0) =~= s);
    } else {
        assert(is_space_char(s[0]));
        lemma_trim_front_skip(s.drop_first(), i - 1);
        assert(s.drop_first().skip(i - 1) =~= s.skip(i));
    }
}

proof fn lemma_trim_back_take(s: Seq<char>, i: int)
    requires
        0 <= i <= s.len(),
        forall|j: int| i <= j < s.len() ==> is_space_char(s[j]),
        i > 0 ==> !is_space_char(s[i - 1]),
    ensures
        trim_back(s) == s.take(i),
    decreases s.len() - i,
{
    if i == s.len() {
        assert(s.take(i) =~= s);
    } else {
        assert(is_space_char(s.last()));
        lemma_trim_back_take(s.drop_last(), i);
        assert(s.drop_last().take(i) =~= s.take(i));
    }
}

/// Trim whitespace from both ends of a character buffer.
pub fn trim_chars(s: &Vec<char>) -> (r: Vec<char>)
    ensures
        r@ == spec_trim(s@),
{
    let mut lo: usize = 0;
    while lo < s.len() && space_char(s[lo])
        invariant
            lo <= s.len(),
            forall|j: int| 0 <= j < lo ==> is_space_char(s@[j]),
        decreases s.len() - lo,
    {
        lo += 1;
    }
    proof {
        lemma_trim_front_skip(s@, lo as int);
    }
    let mut hi: usize = s.len();
    while hi > lo && space_char(s[hi - 1])
        invariant
            lo <= hi <= s.len(),
            forall|j: int| hi <= j < s.len() ==> is_space_char(s@[j]),
        decreases hi,
    {
        hi -= 1;
    }
    proof {
        let t = s@.skip(lo as int);
        lemma_trim_back_take(t, hi - lo);
    }
    let mut r: Vec<char> = Vec::new();
    let mut i: usize = lo;
    while i < hi
        invariant
            lo <= i <= hi <= s.len(),
            r@ == s@.subrange(lo as int, i as int),
        decreases hi - i,
    {
        r.push(s[i]);
        i += 1;
        proof {
            assert(r@ =~= s@.subrange(lo as int, i as int));
        }
    }
    proof {
        assert(r@ =~= s@.skip(lo as int).take(hi - lo as int));
    }
    r
}

/// Copy the characters of `v` in positions `from..to`.
pub fn sub_chars(v: &Vec<char>, from: usize, to: usize) -> (r: Vec<char>)
    requires
        from <= to <= v.len(),
    ensures
        r@ == v@.subrange(from as int, to as int),
{
    let mut r: Vec<char> = Vec::new();
    let mut i: usize = from;
    while i < to
        invariant
            from <= i <= to <= v.len(),
            r@ == v@.subrange(from as int, i as int),
        decreases to - i,
    {
        r.push(v[i]);
        i += 1;
        proof {
            assert(r@ =~= v@.subrange(from as int, i as int));
        }
    }
    r
}

/// The lines of `s`, split at `'\n'`. Splitting alone never drops
/// characters; a trailing newline yields a final empty line.
pub open spec fn split_lines(s: Seq<char>) -> Seq<Seq<char>>
    decreases s.len(),
{
    if s.len() == 0 {
        seq![s]
    } else if s[0] == '\n' {
        seq![Seq::<char>::empty()] + split_lines(s.drop_first())
    } else {
        let rest = split_lines(s.drop_first());
        seq![seq![s[0]] + rest[0]] + rest.drop_first()
    }
}

pub proof fn lemma_split_lines_nonempty(s: Seq<char>)
    ensures
        split_lines(s).len() >= 1,
    decreases s.len(),
{
    if s.len() > 0 {
        lemma_split_lines_nonempty(s.drop_first());
    }
}

/// Split a character buffer into its lines.
pub fn split_lines_chars(s: &Vec<char>) -> (r: Vec<Vec<char>>)
    ensures
        r.deep_view() == split_lines(s@),
        r.len() >= 1,
{
    let mut lines: Vec<Vec<char>> = Vec::new();
    lines.push(Vec::new());
    proof {
        assert(s@.skip(s@.len() as int) =~= Seq::<char>::empty());
        assert(lines.deep_view() =~~= split_lines(s@.skip(s@.len() as int)));
    }
    let mut i: usize = s.len();
    while i > 0
        invariant
            i <= s.len(),
            lines.len() >= 1,
            lines.deep_view() == split_lines(s@.skip(i as int)),
        decreases i,
    {
        i -= 1;
        let ghost pre = s@.skip(i as int + 1);
        let ghost cur = s@.skip(i as int);
        proof {
            assert(cur.len() > 0);
            assert(cur[0] == s@[i as int]);
            assert(cur.drop_first() =~= pre);
            lemma_split_lines_nonempty(pre);
        }
        if s[i] == '\n' {
            lines.insert(0, Vec::new());
            proof {
                assert(lines.deep_view() =~~= seq![Seq::<char>::empty()] + split_lines(pre));
            }
        } else {
            let mut first = lines.remove(0);
            let ghost old_first = first@;
            first.insert(0, s[i]);
            proof {
                assert(first@ =~= seq![s@[i as int]] + old_first);
            }
            lines.insert(0, first);
            proof {
                let rest = split_lines(pre);
                assert(old_first == rest[0]);
                assert(lines.deep_view() =~~= seq![seq![cur[0]] + rest[0]] + rest.drop_first());
            }
        }
    }
    proof {
        assert(s@.skip(0) =~= s@);
    }
    lines
}

/// Whether `p` occurs as a contiguous subsequence of `s`.
pub open spec fn spec_contains_seq(s: Seq<char>, p: Seq<char>) -> bool {
    exists|i: int|
        0 <= i && i + p.len() <= s.len() && #[trigger] s.subrange(i, i + p.len() as int) == p
}

pub fn matches_at(s: &Vec<char>, p: &Vec<char>, at: usize) -> (r: bool)
    requires
        at + p.len() <= s.len(),
    ensures
        r == (s@.subrange(at as int, at + p@.len()) == p@),
{
    let mut j: usize = 0;
    while j < p.len()
        invariant
            j <= p.len(),
            at + p.len() <= s.len(),
            forall|k: int| 0 <= k < j ==> s@[at + k] == p@[k],
        decreases p.len() - j,
    {
        if s[at + j] != p[j] {
            proof {
                assert(s@.subrange(at as int, at + p@.len())[j as int] != p@[j as int]);
            }
            return false;
        }
        j += 1;
    }
    proof {
        assert(s@.subrange(at as int, at + p@.len()) =~= p@);
    }
    true
}

pub fn contains_chars(s: &Vec<char>, p: &Vec<char>) -> (r: bool)
    ensures
        r == spec_contains_seq(s@, p@),
{
    if p.len() > s.len() {
        return false;
    }
    if p.len() == 0 {
        proof {
            assert(s@.subrange(0, 0 + p@.len() as int) =~= p@);
        }
        return true;
    }
    let limit = s.len() - p.len();
    let mut i: usize = 0;
    while i <= limit
        invariant
            1 <= p.len() <= s.len(),
            limit == s.len() - p.len(),
            i <= limit + 1,
            forall|k: int| 0 <= k < i ==> #[trigger] s@.subrange(k, k + p@.len()) != p@,
        decreases limit + 1 - i,
    {
        if matches_at(s, p, i) {
            return true;
        }
        i += 1;
    }
    false
}

/// `s` with every non-overlapping occurrence of `from` replaced by `to`,
/// scanning left to right.
pub open spec fn replace_seq(s: Seq<char>, from: Seq<char>, to: Seq<char>) -> Seq<char>
    decreases s.len(),
{
    if from.len() == 0 || s.len() < from.len() {
        s
    } else if spec_starts_with(s, from) {
        to + replace_seq(s.skip(from.len() as int), from, to)
    } else {
        seq![s[0]] + replace_seq(s.drop_first(), from, to)
    }
}

/// Replace every occurrence of `from` in `s` by `to`.
pub fn replace_chars(s: &Vec<char>, from: &Vec<char>, to: &Vec<char>) -> (r: Vec<char>)
    requires
        from.len() > 0,
    ensures
        r@ == replace_seq(s@, from@, to@),
{
    let mut out: Vec<char> = Vec::new();
    let mut i: usize = 0;
    proof {
        assert(s@.skip(0) =~= s@);
        assert(out@ + replace_seq(s@, from@, to@) =~= replace_seq(s@, from@, to@));
    }
    while i < s.len()
        invariant
            i <= s.len(),
            from@.len() > 0,
            out@ + replace_seq(s@.skip(i as int), from@, to@) == replace_seq(s@, from@, to@),
        decreases s.len() - i,
    {
        let ghost cur = s@.skip(i as int);
        let hit = if from.len() <= s.len() - i {
            matches_at(s, from, i)
        } else {
            false
        };
        proof {
            assert(cur.drop_first() =~= s@.skip(i as int + 1));
            if i + from@.len() <= s@.len() {
                assert(s@.subrange(i as int, i + from@.len()) =~= cur.subrange(
                    0,
                    from@.len() as int,
                ));
                assert(cur.skip(from@.len() as int) =~= s@.skip(i + from@.len()));
            }
        }
        if hit {
            let mut j: usize = 0;
            let ghost out0 = out@;
            while j < to.len()
                invariant
                    j <= to.len(),
                    out@ == out0 + to@.subrange(0, j as int),
                decreases to.len() - j,
            {
                out.push(to[j]);
                j += 1;
                proof {
                    assert(out@ =~= out0 + to@.subrange(0, j as int));
                }
            }
            proof {
                assert(to@.subrange(0, to@.len() as int) =~= to@);
                assert(out0 + to@ + replace_seq(s@.skip(i + from@.len()), from@, to@) =~= out0
                    + replace_seq(cur, from@, to@));
            }
            i += from.len();
        } else {
            let ghost out0 = out@;
            out.push(s[i]);
            proof {
                assert(replace_seq(cur, from@, to@) == seq![cur[0]] + replace_seq(
                    cur.drop_first(),
                    from@,
                    to@,
                ));
                assert(out@ + replace_seq(s@.skip(i as int + 1), from@, to@) =~= out0
                    + replace_seq(cur, from@, to@));
            }
            i += 1;
        }
    }
    proof {
        assert(s@.skip(s@.len() as int) =~= Seq::<char>::empty());
        assert(out@ + replace_seq(Seq::<char>::empty(), from@, to@) =~= out@);
    }
    out
}

/// ASCII lowercase of one character; other characters are unchanged.
pub open spec fn lower_char(c: char) -> char {
    if 65 <= c as u32 && c as u32 <= 90 {
        (((c as u32) + 32) as u8) as char
    } else {
        c
    }
}

/// Pointwise ASCII lowercase.
pub open spec fn lower_seq(s: Seq<char>) -> Seq<char> {
    s.map_values(|c: char| lower_char(c))
}

pub fn to_lower_char(c: char) -> (r: char)
    ensures
        r == lower_char(c),
{
    let u = c as u32;
    if 65 <= u && u <= 90 {
        ((u as u8) + 32) as char
    } else {
        c
    }
}

pub fn lower_chars(v: &Vec<char>) -> (r: Vec<char>)
    ensures
        r@ == lower_seq(v@),
{
    let mut r: Vec<char> = Vec::new();
    let mut i: usize = 0;
    while i < v.len()
        invariant
            i <= v.len(),
            r@ == lower_seq(v@.subrange(0, i as int)),
        decreases v.len() - i,
    {
        r.push(to_lower_char(v[i]));
        i += 1;
        proof {
            assert(r@ =~= lower_seq(v@.subrange(0, i as int)));
        }
    }
    proof {
        assert(v@.subrange(0, v@.len() as int) =~= v@);
    }
    r
}

/// Lexicographic order on character sequences, by Unicode scalar value.
/// On ASCII text it coincides with the byte order of the strings.
pub open spec fn lex_le(a: Seq<char>, b: Seq<char>) -> bool
    decreases a.len(),
{
    if a.len() == 0 {
        true
    } else if b.len() == 0 {
        false
    } else if (a[0] as u32) < (b[0] as u32) {
        true
    } else if (a[0] as u32) > (b[0] as u32) {
        false
    } else {
        lex_le(a.drop_first(), b.drop_first())
    }
}

pub proof fn lemma_lex_le_total(a: Seq<char>, b: Seq<char>)
    ensures
        lex_le(a, b) || lex_le(b, a),
    decreases a.len(),
{
    if a.len() > 0 && b.len() > 0 && (a[0] as u32) == (b[0] as u32) {
        lemma_lex_le_total(a.drop_first(), b.drop_first());
    }
}

pub proof fn lemma_lex_le_trans(a: Seq<char>, b: Seq<char>, c: Seq<char>)
    requires
        lex_le(a, b),
        lex_le(b, c),
    ensures
        lex_le(a, c),
    decreases a.len(),
{
    if a.len() > 0 && b.len() > 0 && c.len() > 0 && (a[0] as u32) == (b[0] as u32) && (b[0] as u32)
        == (c[0] as u32) {
        lemma_lex_le_trans(a.drop_first(), b.drop_first(), c.drop_first());
    }
}

/// Compare two character buffers lexicographically.
pub fn lex_le_chars(a: &Vec<char>, b: &Vec<char>) -> (r: bool)
    ensures
        r == lex_le(a@, b@),
{
    proof {
        assert(a@.skip(0) =~= a@);
        assert(b@.skip(0) =~= b@);
    }
    let mut i: usize = 0;
    while i < a.len() && i < b.len()
        invariant
            i <= a.len(),
            i <= b.len(),
            lex_le(a@.skip(i as int), b@.skip(i as int)) == lex_le(a@, b@),
        decreases a.len() - i,
    {
        let ghost (ca, cb) = (a@.skip(i as int), b@.skip(i as int));
        proof {
            assert(ca[0] == a@[i as int]);
            assert(cb[0] == b@[i as int]);
            assert(ca.drop_first() =~= a@.skip(i as int + 1));
            assert(cb.drop_first() =~= b@.skip(i as int + 1));
        }
        if (a[i] as u32) < (b[i] as u32) {
            return true;
        }
        if (a[i] as u32) > (b[i] as u32) {
            return false;
        }
        i += 1;
    }
    proof {
        if i == a.len() {
            assert(a@.skip(i as int) =~= Seq::<char>::empty());
        } else {
            assert(b@.skip(i as int) =~= Seq::<char>::empty());
            assert(a@.skip(i as int).len() > 0);
        }
    }
    a.len() <= b.len()
}

/// Whether `c` is an ASCII decimal digit.
pub open spec fn is_digit_char(c: char) -> bool {
    48 <= c as u32 && c as u32 <= 57
}

/// The numeric value of a digit character.
pub open spec fn digit_val(c: char) -> int {
    c as u32 - 48
}

pub open spec fn all_digits(s: Seq<char>) -> bool {
    forall|i: int| 0 <= i < s.len() ==> is_digit_char(s[i])
}

/// The number written by a sequence of digit characters, most significant
/// first.
pub open spec fn digits_value(s: Seq<char>) -> int
    decreases s.len(),
{
    if s.len() == 0 {
        0
    } else {
        digits_value(s.drop_last()) * 10 + digit_val(s.last())
    }
}

pub open spec fn pow10(n: nat) -> int
    decreases n,
{
    if n == 0 {
        1
    } else {
        10 * pow10((n - 1) as nat)
    }
}

pub proof fn lemma_digits_value_bound(s: Seq<char>)
    requires
        all_digits(s),
    ensures
        0 <= digits_value(s) < pow10(s.len()),
    decreases s.len(),
{
    if s.len() > 0 {
        assert(all_digits(s.drop_last()));
        lemma_digits_value_bound(s.drop_last());
        assert(0 <= digit_val(s.last()) <= 9);
    }
}

pub fn digit_char_exec(c: char) -> (r: bool)
    ensures
        r == is_digit_char(c),
{
    let u = c as u32;
    48 <= u && u <= 57
}

/// Read `count` digit characters of `v` starting at `from` as a number.
/// Returns `None` when any of them is not a digit.
pub fn parse_digits(v: &Vec<char>, from: usize, count: usize) -> (r: Option<u32>)
    requires
        from + count <= v.len(),
        count <= 9,
    ensures
        match r {
            Some(x) => all_digits(v@.subrange(from as int, from + count)) && x == digits_value(
                v@.subrange(from as int, from + count),
            ),
            None => !all_digits(v@.subrange(from as int, from + count)),
        },
{
    let ghost whole = v@.subrange(from as int, from + count);
    let n = v.len();
    let mut acc: u32 = 0;
    let mut i: usize = 0;
    while i < count
        invariant
            i <= count <= 9,
            n == v@.len(),
            from + count <= n,
            all_digits(whole.take(i as int)),
            acc == digits_value(whole.take(i as int)),
            whole == v@.subrange(from as int, from + count),
        decreases count - i,
    {
        proof {
            lemma_digits_value_bound(whole.take(i as int));
            lemma_pow10_le(i as nat, 8);
            reveal_with_fuel(pow10, 10);
            assert(pow10(8) == 100000000);
        }
        let c = v[from + i];
        proof {
            assert(whole[i as int] == c);
        }
        if !digit_char_exec(c) {
            proof {
                assert(!is_digit_char(whole[i as int]));
            }
            return None;
        }
        let d = (c as u32) - 48;
        acc = acc * 10 + d;
        i += 1;
        proof {
            assert(whole.take(i as int).drop_last() =~= whole.take(i - 1));
            assert(whole.take(i as int).last() == whole[i - 1]);
        }
    }
    proof {
        assert(whole.take(count as int) =~= whole);
    }
    Some(acc)
}

pub proof fn lemma_pow10_pos(n: nat)
    ensures
        pow10(n) >= 1,
    decreases n,
{
    if n > 0 {
        lemma_pow10_pos((n - 1) as nat);
    }
}

pub proof fn lemma_pow10_le(a: nat, b: nat)
    requires
        a <= b,
    ensures
        pow10(a) <= pow10(b),
    decreases b,
{
    lemma_pow10_pos(a);
    if a < b {
        lemma_pow10_le(a, (b - 1) as nat);
        lemma_pow10_pos((b - 1) as nat);
    }
}

} // verus!
