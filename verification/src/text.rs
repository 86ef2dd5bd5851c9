//! Plain-text utilities shared by the engine: decimal rendering and
//! parsing, case folding, substring search, and splitting on separator
//! characters. Everything here is character-level and fully specified.

use vstd::prelude::*;
use vstd::string::*;

verus! {

/// Relies on `String::push`: appends exactly one character at the end.
#[verifier::external_body]
pub fn push_char(s: &mut String, c: char)
    ensures
        final(s)@ == old(s)@.push(c),
{
    s.push(c);
}

/// Collects the characters of a string slice into a vector.
pub fn chars_of(s: &str) -> (r: Vec<char>)
    ensures
        r@ == s@,
{
    let n = s.unicode_len();
    let mut r: Vec<char> = Vec::new();
    let mut i: usize = 0;
    while i < n
        invariant
            i <= n,
            n == s@.len(),
            r@ == s@.subrange(0, i as int),
        decreases n - i,
    {
        let c = s.get_char(i);
        r.push(c);
        i = i + 1;
        proof {
            assert(r@ =~= s@.subrange(0, i as int));
        }
    }
    proof {
        assert(r@ =~= s@);
    }
    r
}

/// Builds a string from a vector of characters.
pub fn string_of_chars(v: &Vec<char>) -> (r: String)
    ensures
        r@ == v@,
{
    let mut r = String::new();
    let mut i: usize = 0;
    while i < v.len()
        invariant
            i <= v.len(),
            r@ == v@.subrange(0, i as int),
        decreases v.len() - i,
    {
        push_char(&mut r, v[i]);
        i = i + 1;
        proof {
            assert(r@ =~= v@.subrange(0, i as int));
        }
    }
    proof {
        assert(r@ =~= v@);
    }
    r
}

/// The character for one decimal digit.
pub open spec fn digit_char(d: nat) -> char
    recommends
        d < 10,
{
    ((48 + d) as u8) as char
}

/// The decimal rendering of a natural number, most significant digit
/// first, with no sign, no leading zero (except for zero itself).
pub open spec fn dec_digits(n: nat) -> Seq<char>
    decreases n,
{
    if n < 10 {
        seq![digit_char(n)]
    } else {
        dec_digits(n / 10).push(digit_char(n % 10))
    }
}

/// The character for one decimal digit.
pub fn digit_to_char(d: u8) -> (c: char)
    requires
        d < 10,
    ensures
        c == digit_char(d as nat),
{
    (48 + d) as char
}

/// Renders a number in decimal.
pub fn u64_to_string(n: u64) -> (r: String)
    ensures
        r@ == dec_digits(n as nat),
    decreases n,
{
    if n < 10 {
        let mut s = String::new();
        push_char(&mut s, digit_to_char(n as u8));
        proof {
            assert(s@ =~= dec_digits(n as nat));
        }
        s
    } else {
        let mut s = u64_to_string(n / 10);
        push_char(&mut s, digit_to_char((n % 10) as u8));
        s
    }
}

/// Whether a character is a decimal digit.
pub open spec fn is_digit(c: char) -> bool {
    48 <= c as u32 && c as u32 <= 57
}

/// The numeric value of a digit character.
pub open spec fn digit_val(c: char) -> nat
    recommends
        is_digit(c),
{
    (c as u32 - 48) as nat
}

/// Whether every character of a sequence is a decimal digit.
pub open spec fn all_digits(s: Seq<char>) -> bool {
    forall|i: int| 0 <= i < s.len() ==> is_digit(#[trigger] s[i])
}

/// The value of a digit sequence read in base ten.
pub open spec fn dec_value(s: Seq<char>) -> nat
    decreases s.len(),
{
    if s.len() == 0 {
        0
    } else {
        dec_value(s.drop_last()) * 10 + digit_val(s.last())
    }
}

/// The number a sequence of characters denotes in decimal: defined for a
/// non-empty sequence of digits, undefined otherwise. Leading zeros are
/// accepted.
pub open spec fn parse_dec(s: Seq<char>) -> Option<nat> {
    if s.len() > 0 && all_digits(s) {
        Some(dec_value(s))
    } else {
        None
    }
}

proof fn lemma_dec_value_step(s: Seq<char>, i: int)
    requires
        0 <= i < s.len(),
    ensures
        dec_value(s.subrange(0, i + 1)) == dec_value(s.subrange(0, i)) * 10 + digit_val(s[i]),
{
    assert(s.subrange(0, i + 1).drop_last() =~= s.subrange(0, i));
    assert(s.subrange(0, i + 1).last() == s[i]);
}

proof fn lemma_dec_value_prefix_le(s: Seq<char>, i: int)
    requires
        0 <= i <= s.len(),
        all_digits(s),
    ensures
        dec_value(s.subrange(0, i)) <= dec_value(s),
    decreases s.len() - i,
{
    if i == s.len() {
        assert(s.subrange(0, i) =~= s);
    } else {
        lemma_dec_value_step(s, i);
        assert(dec_value(s.subrange(0, i)) <= dec_value(s.subrange(0, i + 1)));
        lemma_dec_value_prefix_le(s, i + 1);
    }
}

/// Reads a decimal number. Returns `None` on an empty or non-digit
/// input, and on a value that does not fit in a `u64`.
pub fn parse_u64(s: &Vec<char>) -> (r: Option<u64>)
    ensures
        match parse_dec(s@) {
            Some(v) => r == (if v <= u64::MAX { Some(v as u64) } else { None::<u64> }),
            None => r == None::<u64>,
        },
{
    if s.len() == 0 {
        return None;
    }
    let mut acc: u64 = 0;
    let mut i: usize = 0;
    while i < s.len()
        invariant
            i <= s.len(),
            s@.len() > 0,
            all_digits(s@.subrange(0, i as int)),
            acc as nat == dec_value(s@.subrange(0, i as int)),
        decreases s.len() - i,
    {
        let u = s[i] as u32;
        if u < 48 || u > 57 {
            assert(!is_digit(s@[i as int]));
            return None;
        }
        let d = (u - 48) as u64;
        if acc > (u64::MAX - d) / 10 {
            proof {
                if parse_dec(s@) is Some {
                    lemma_dec_value_step(s@, i as int);
                    lemma_dec_value_prefix_le(s@, i as int + 1);
                    assert(dec_value(s@) > u64::MAX);
                }
            }
            return None;
        }
        proof {
            lemma_dec_value_step(s@, i as int);
        }
        acc = acc * 10 + d;
        i = i + 1;
        proof {
            assert(all_digits(s@.subrange(0, i as int)));
        }
    }
    proof {
        assert(s@.subrange(0, i as int) =~= s@);
    }
    Some(acc)
}

/// Rendering then reading a number in decimal gives the number back.
pub proof fn lemma_dec_round_trip(n: nat)
    ensures
        parse_dec(dec_digits(n)) == Some(n),
    decreases n,
{
    if n < 10 {
        let s = dec_digits(n);
        assert(s =~= seq![digit_char(n)]);
        assert(s.drop_last() =~= Seq::<char>::empty());
        assert(dec_value(Seq::<char>::empty()) == 0);
        assert(dec_value(s) == 0 * 10 + digit_val(digit_char(n)));
        assert(all_digits(s));
        assert(dec_value(s) == n);
    } else {
        lemma_dec_round_trip(n / 10);
        let s = dec_digits(n);
        assert(s == dec_digits(n / 10).push(digit_char(n % 10)));
        assert(s.drop_last() =~= dec_digits(n / 10));
        assert(s.last() == digit_char(n % 10));
        assert(all_digits(dec_digits(n / 10)));
        assert(is_digit(digit_char(n % 10)));
        assert(all_digits(s)) by {
            assert(forall|i: int|
                0 <= i < s.len() ==> #[trigger] s[i] == if i < s.len() - 1 {
                    dec_digits(n / 10)[i]
                } else {
                    digit_char(n % 10)
                });
        }
        assert(dec_value(s) == dec_value(dec_digits(n / 10)) * 10 + digit_val(digit_char(n % 10)));
        assert(dec_value(s) == (n / 10) * 10 + n % 10);
        assert((n / 10) * 10 + n % 10 == n) by (nonlinear_arith);
    }
}


/// ASCII lowercasing of one character: 'A' through 'Z' shift down by 32,
/// all other characters stay as they are.
pub open spec fn lower_char(c: char) -> char {
    if 65 <= c as u32 && c as u32 <= 90 {
        ((c as u32 + 32) as u8) as char
    } else {
        c
    }
}

/// ASCII lowercasing of a sequence of characters.
pub open spec fn lower_seq(s: Seq<char>) -> Seq<char> {
    s.map_values(|c: char| lower_char(c))
}

fn char_to_lower(c: char) -> (r: char)
    ensures
        r == lower_char(c),
{
    let u = c as u32;
    if 65 <= u && u <= 90 {
        ((u + 32) as u8) as char
    } else {
        c
    }
}

/// ASCII lowercasing of a character vector.
pub fn to_lower(s: &Vec<char>) -> (r: Vec<char>)
    ensures
        r@ == lower_seq(s@),
{
    let mut r: Vec<char> = Vec::new();
    let mut i: usize = 0;
    while i < s.len()
        invariant
            i <= s.len(),
            r@ == lower_seq(s@.subrange(0, i as int)),
        decreases s.len() - i,
    {
        r.push(char_to_lower(s[i]));
        i = i + 1;
        proof {
            assert(r@ =~= lower_seq(s@.subrange(0, i as int)));
        }
    }
    proof {
        assert(r@ =~= lower_seq(s@));
    }
    r
}

/// Character-vector equality, decided element by element.
pub fn chars_equal(a: &Vec<char>, b: &Vec<char>) -> (r: bool)
    ensures
        r == (a@ == b@),
{
    if a.len() != b.len() {
        return false;
    }
    let mut i: usize = 0;
    while i < a.len()
        invariant
            i <= a.len(),
            a@.len() == b@.len(),
            forall|j: int| 0 <= j < i ==> a@[j] == b@[j],
        decreases a.len() - i,
    {
        if a[i] != b[i] {
            return false;
        }
        i = i + 1;
    }
    proof {
        assert(a@ =~= b@);
    }
    true
}

/// Whether `needle` occurs as a contiguous run inside `hay`.
pub open spec fn contains_seq(hay: Seq<char>, needle: Seq<char>) -> bool {
    exists|i: int|
        0 <= i && i + needle.len() <= hay.len() && #[trigger] hay.subrange(
            i,
            i + needle.len() as int,
        ) == needle
}

fn matches_at(hay: &Vec<char>, needle: &Vec<char>, i: usize) -> (r: bool)
    requires
        i + needle@.len() <= hay@.len(),
    ensures
        r == (hay@.subrange(i as int, i as int + needle@.len() as int) == needle@),
{
    let mut j: usize = 0;
    while j < needle.len()
        invariant
            j <= needle.len(),
            i + needle@.len() <= hay@.len(),
            hay@.len() == hay.len(),
            forall|k: int| 0 <= k < j ==> hay@[i + k] == needle@[k],
        decreases needle.len() - j,
    {
        if hay[i + j] != needle[j] {
            proof {
                assert(hay@.subrange(i as int, i as int + needle@.len() as int)[j as int]
                    != needle@[j as int]);
            }
            return false;
        }
        j = j + 1;
    }
    proof {
        assert(hay@.subrange(i as int, i as int + needle@.len() as int) =~= needle@);
    }
    true
}

/// Substring search.
pub fn contains_chars(hay: &Vec<char>, needle: &Vec<char>) -> (r: bool)
    ensures
        r == contains_seq(hay@, needle@),
{
    if needle.len() > hay.len() {
        return false;
    }
    if needle.len() == 0 {
        proof {
            assert(hay@.subrange(0, 0 + needle@.len() as int) =~= needle@);
        }
        return true;
    }
    let bound = hay.len() - needle.len();
    let mut i: usize = 0;
    while i <= bound
        invariant
            1 <= needle@.len() <= hay@.len(),
            hay@.len() == hay.len(),
            bound == hay@.len() - needle@.len(),
            i <= bound + 1,
            forall|j: int|
                0 <= j < i ==> #[trigger] hay@.subrange(j, j + needle@.len() as int) != needle@,
        decreases bound + 1 - i,
    {
        if matches_at(hay, needle, i) {
            return true;
        }
        i = i + 1;
    }
    false
}

/// Whether a character counts as trimmable whitespace: space, tab,
/// carriage return or newline.
pub open spec fn is_space(c: char) -> bool {
    c == ' ' || c == '\t' || c == '\n' || c == '\r'
}

fn char_is_space(c: char) -> (r: bool)
    ensures
        r == is_space(c),
{
    c == ' ' || c == '\t' || c == '\n' || c == '\r'
}

/// The sequence with leading whitespace removed.
pub open spec fn trim_front_spec(s: Seq<char>) -> Seq<char>
    decreases s.len(),
{
    if s.len() > 0 && is_space(s[0]) {
        trim_front_spec(s.drop_first())
    } else {
        s
    }
}

/// The sequence with trailing whitespace removed.
pub open spec fn trim_back_spec(s: Seq<char>) -> Seq<char>
    decreases s.len(),
{
    if s.len() > 0 && is_space(s.last()) {
        trim_back_spec(s.drop_last())
    } else {
        s
    }
}

/// The sequence with whitespace removed at both ends.
pub open spec fn trim_spec(s: Seq<char>) -> Seq<char> {
    trim_back_spec(trim_front_spec(s))
}

/// Removes whitespace from both ends.
pub fn trim_chars(s: &Vec<char>) -> (r: Vec<char>)
    ensures
        r@ == trim_spec(s@),
{
    proof {
        assert(s@.subrange(0, s@.len() as int) =~= s@);
    }
    let mut start: usize = 0;
    while start < s.len() && char_is_space(s[start])
        invariant
            start <= s.len(),
            trim_front_spec(s@) == trim_front_spec(s@.subrange(start as int, s@.len() as int)),
        decreases s.len() - start,
    {
        proof {
            let t = s@.subrange(start as int, s@.len() as int);
            assert(t.drop_first() =~= s@.subrange(start as int + 1, s@.len() as int));
        }
        start = start + 1;
    }
    let mut end: usize = s.len();
    proof {
        assert(s@.subrange(start as int, s@.len() as int) =~= trim_front_spec(s@));
    }
    while end > start && char_is_space(s[end - 1])
        invariant
            start <= end <= s.len(),
            trim_back_spec(trim_front_spec(s@)) == trim_back_spec(
                s@.subrange(start as int, end as int),
            ),
        decreases end,
    {
        proof {
            let t = s@.subrange(start as int, end as int);
            assert(t.drop_last() =~= s@.subrange(start as int, end as int - 1));
        }
        end = end - 1;
    }
    proof {
        let t = s@.subrange(start as int, end as int);
        assert(t.len() == 0 || !is_space(t.last()));
        assert(trim_back_spec(t) == t);
    }
    let mut r: Vec<char> = Vec::new();
    let mut i: usize = start;
    while i < end
        invariant
            start <= i <= end <= s.len(),
            r@ == s@.subrange(start as int, i as int),
        decreases end - i,
    {
        r.push(s[i]);
        i = i + 1;
        proof {
            assert(r@ =~= s@.subrange(start as int, i as int));
        }
    }
    proof {
        assert(r@ =~= trim_spec(s@));
    }
    r
}

/// Removes `prefix` from the front of `s`, if it starts with it.
pub fn strip_prefix_chars(s: &Vec<char>, prefix: &Vec<char>) -> (r: Option<Vec<char>>)
    ensures
        match r {
            Some(rest) => prefix@.is_prefix_of(s@) && rest@ == s@.subrange(
                prefix@.len() as int,
                s@.len() as int,
            ),
            None => !prefix@.is_prefix_of(s@),
        },
{
    if prefix.len() > s.len() {
        return None;
    }
    if !matches_at(s, prefix, 0) {
        proof {
            assert(s@.subrange(0, prefix@.len() as int) != prefix@);
        }
        return None;
    }
    let mut rest: Vec<char> = Vec::new();
    let mut i: usize = prefix.len();
    while i < s.len()
        invariant
            prefix@.len() <= i <= s@.len(),
            rest@ == s@.subrange(prefix@.len() as int, i as int),
        decreases s.len() - i,
    {
        rest.push(s[i]);
        i = i + 1;
        proof {
            assert(rest@ =~= s@.subrange(prefix@.len() as int, i as int));
        }
    }
    proof {
        assert(rest@ =~= s@.subrange(prefix@.len() as int, s@.len() as int));
        assert(s@.subrange(0, prefix@.len() as int) =~= prefix@);
    }
    Some(rest)
}


/// The pieces of `s` between occurrences of `sep`, in order: splitting
/// the empty sequence gives one empty piece, and every occurrence of
/// `sep` separates two (possibly empty) pieces.
pub open spec fn split_on(s: Seq<char>, sep: char) -> Seq<Seq<char>>
    decreases s.len(),
{
    if s.len() == 0 {
        seq![Seq::<char>::empty()]
    } else if s[0] == sep {
        seq![Seq::<char>::empty()] + split_on(s.drop_first(), sep)
    } else {
        let rest = split_on(s.drop_first(), sep);
        rest.update(0, seq![s[0]] + rest[0])
    }
}

/// The pieces joined back with `sep` between each pair.
pub open spec fn join_with(parts: Seq<Seq<char>>, sep: char) -> Seq<char>
    decreases parts.len(),
{
    if parts.len() == 0 {
        Seq::<char>::empty()
    } else if parts.len() == 1 {
        parts[0]
    } else {
        parts[0] + seq![sep] + join_with(parts.drop_first(), sep)
    }
}

/// Splitting always yields at least one piece.
pub proof fn lemma_split_on_nonempty(s: Seq<char>, sep: char)
    ensures
        split_on(s, sep).len() >= 1,
    decreases s.len(),
{
    if s.len() == 0 {
    } else {
        lemma_split_on_nonempty(s.drop_first(), sep);
    }
}

proof fn lemma_split_no_sep(s: Seq<char>, sep: char)
    requires
        !s.contains(sep),
    ensures
        split_on(s, sep) == seq![s],
    decreases s.len(),
{
    if s.len() == 0 {
        assert(split_on(s, sep) =~~= seq![s]);
    } else {
        assert(s[0] != sep);
        assert(!s.drop_first().contains(sep)) by {
            if s.drop_first().contains(sep) {
                let i = choose|i: int|
                    0 <= i < s.drop_first().len() && s.drop_first()[i] == sep;
                assert(s[i + 1] == sep);
            }
        }
        lemma_split_no_sep(s.drop_first(), sep);
        assert(seq![s[0]] + s.drop_first() =~= s);
        assert(split_on(s, sep) =~~= seq![s]);
    }
}

/// Joining pieces that are free of the separator, then splitting on it,
/// gives the pieces back unchanged.
pub proof fn lemma_split_join(parts: Seq<Seq<char>>, sep: char)
    requires
        parts.len() >= 1,
        forall|i: int| 0 <= i < parts.len() ==> !(#[trigger] parts[i]).contains(sep),
    ensures
        split_on(join_with(parts, sep), sep) == parts,
    decreases parts.len(), parts[0].len(),
{
    if parts.len() == 1 {
        lemma_split_no_sep(parts[0], sep);
        assert(split_on(join_with(parts, sep), sep) =~~= parts);
    } else {
        let tail = parts.drop_first();
        let j = join_with(parts, sep);
        assert(forall|i: int| 0 <= i < tail.len() ==> !(#[trigger] tail[i]).contains(sep)) by {
            assert(forall|i: int| 0 <= i < tail.len() ==> tail[i] == #[trigger] parts[i + 1]);
        }
        if parts[0].len() == 0 {
            assert(j =~= seq![sep] + join_with(tail, sep));
            assert(j[0] == sep);
            assert(j.drop_first() =~= join_with(tail, sep));
            lemma_split_join(tail, sep);
            assert(split_on(j, sep) == seq![Seq::<char>::empty()] + tail);
            assert(parts[0] =~= Seq::<char>::empty());
            assert(seq![Seq::<char>::empty()] + tail =~~= parts);
        } else {
            let head = parts[0];
            let parts2 = parts.update(0, head.drop_first());
            assert(head[0] != sep) by {
                assert(head.contains(sep) <== head[0] == sep);
            }
            assert(j == head + seq![sep] + join_with(tail, sep));
            assert(j.len() > 0 && j[0] == head[0]);
            assert(parts2.len() == parts.len());
            assert(parts2[0] == head.drop_first());
            assert(parts2.drop_first() =~~= tail);
            assert(join_with(parts2, sep) == parts2[0] + seq![sep] + join_with(
                parts2.drop_first(),
                sep,
            ));
            assert(j.drop_first() =~= head.drop_first() + seq![sep] + join_with(tail, sep));
            assert(j.drop_first() == join_with(parts2, sep));
            assert(forall|i: int|
                0 <= i < parts2.len() ==> !(#[trigger] parts2[i]).contains(sep)) by {
                assert(!head.drop_first().contains(sep)) by {
                    if head.drop_first().contains(sep) {
                        let i = choose|i: int|
                            0 <= i < head.drop_first().len() && head.drop_first()[i] == sep;
                        assert(head[i + 1] == sep);
                    }
                }
            }
            lemma_split_join(parts2, sep);
            let rest = split_on(j.drop_first(), sep);
            assert(rest == parts2);
            assert(split_on(j, sep) == rest.update(0, seq![j[0]] + rest[0]));
            assert(seq![head[0]] + head.drop_first() =~= head);
            assert(split_on(j, sep) =~~= parts);
        }
    }
}

/// `split_on` applied with the first piece still being accumulated: the
/// accumulated characters are prepended to the first piece of the rest.
pub open spec fn prepend_first(c: Seq<char>, ss: Seq<Seq<char>>) -> Seq<Seq<char>>
    recommends
        ss.len() >= 1,
{
    ss.update(0, c + ss[0])
}

/// Splits a character vector on a separator.
pub fn split_chars(s: &Vec<char>, sep: char) -> (r: Vec<Vec<char>>)
    ensures
        r.deep_view() == split_on(s@, sep),
{
    let mut done: Vec<Vec<char>> = Vec::new();
    let mut cur: Vec<char> = Vec::new();
    let mut i: usize = 0;
    proof {
        let whole = s@.subrange(0, s@.len() as int);
        assert(whole =~= s@);
        lemma_split_on_nonempty(s@, sep);
        assert(prepend_first(cur@, split_on(s@, sep)) =~~= split_on(s@, sep));
        assert(done.deep_view() + prepend_first(cur@, split_on(whole, sep)) =~~= split_on(
            s@,
            sep,
        ));
    }
    while i < s.len()
        invariant
            i <= s.len(),
            split_on(s@, sep) =~~= done.deep_view() + prepend_first(
                cur@,
                split_on(s@.subrange(i as int, s@.len() as int), sep),
            ),
        decreases s.len() - i,
    {
        let ghost rest = s@.subrange(i as int, s@.len() as int);
        let ghost rest2 = s@.subrange(i as int + 1, s@.len() as int);
        proof {
            assert(rest.len() > 0 && rest[0] == s@[i as int]);
            assert(rest.drop_first() =~= rest2);
            lemma_split_on_nonempty(rest2, sep);
        }
        let c = s[i];
        if c == sep {
            let ghost old_done = done.deep_view();
            let ghost old_cur = cur@;
            done.push(cur);
            cur = Vec::new();
            proof {
                assert(split_on(rest, sep) == seq![Seq::<char>::empty()] + split_on(rest2, sep));
                assert(done.deep_view() =~~= old_done.push(old_cur));
                assert(prepend_first(old_cur, split_on(rest, sep)) =~~= seq![old_cur]
                    + split_on(rest2, sep));
                assert(prepend_first(cur@, split_on(rest2, sep)) =~~= split_on(rest2, sep));
                assert(split_on(s@, sep) =~~= done.deep_view() + prepend_first(
                    cur@,
                    split_on(rest2, sep),
                ));
            }
        } else {
            let ghost old_cur = cur@;
            cur.push(c);
            proof {
                let ss = split_on(rest2, sep);
                assert(split_on(rest, sep) == ss.update(0, seq![rest[0]] + ss[0]));
                assert(prepend_first(old_cur, split_on(rest, sep)) =~~= prepend_first(cur@, ss));
                assert(split_on(s@, sep) =~~= done.deep_view() + prepend_first(cur@, ss));
            }
        }
        i = i + 1;
    }
    let ghost old_done = done.deep_view();
    let ghost last = cur@;
    done.push(cur);
    proof {
        let rest = s@.subrange(i as int, s@.len() as int);
        assert(rest.len() == 0);
        assert(split_on(rest, sep) == seq![Seq::<char>::empty()]);
        assert(prepend_first(last, split_on(rest, sep)) =~~= seq![last]);
        assert(done.deep_view() =~~= old_done.push(last));
        assert(done.deep_view() =~~= split_on(s@, sep));
    }
    done
}

/// The character for one hexadecimal digit, upper case.
pub open spec fn hex_digit_char(d: nat) -> char
    recommends
        d < 16,
{
    if d < 10 {
        digit_char(d)
    } else {
        ((55 + d) as u8) as char
    }
}

/// The hex dump of a byte sequence: two upper-case hex digits and a
/// trailing space for every byte.
pub open spec fn hex_of(data: Seq<u8>) -> Seq<char>
    decreases data.len(),
{
    if data.len() == 0 {
        Seq::<char>::empty()
    } else {
        hex_of(data.drop_last()) + seq![
            hex_digit_char((data.last() / 16) as nat),
            hex_digit_char((data.last() % 16) as nat),
            ' ',
        ]
    }
}

/// The printable rendering of one byte: ASCII graphic characters stand
/// for themselves, everything else becomes a dot.
pub open spec fn ascii_render_char(b: u8) -> char {
    if 33 <= b && b <= 126 {
        b as char
    } else {
        '.'
    }
}

/// The printable rendering of a byte sequence.
pub open spec fn ascii_of(data: Seq<u8>) -> Seq<char> {
    data.map_values(|b: u8| ascii_render_char(b))
}

fn hex_digit(d: u8) -> (c: char)
    requires
        d < 16,
    ensures
        c == hex_digit_char(d as nat),
{
    if d < 10 {
        (48 + d) as char
    } else {
        (55 + d) as char
    }
}

/// Renders the hex dump of a byte slice.
pub fn hex_chars(data: &[u8]) -> (r: Vec<char>)
    ensures
        r@ == hex_of(data@),
{
    let mut r: Vec<char> = Vec::new();
    let mut i: usize = 0;
    while i < data.len()
        invariant
            i <= data.len(),
            r@ == hex_of(data@.subrange(0, i as int)),
        decreases data.len() - i,
    {
        let b = data[i];
        r.push(hex_digit(b / 16));
        r.push(hex_digit(b % 16));
        r.push(' ');
        i = i + 1;
        proof {
            let pre = data@.subrange(0, i as int);
            assert(pre.drop_last() =~= data@.subrange(0, i as int - 1));
            assert(pre.last() == data@[i as int - 1]);
            assert(r@ =~= hex_of(pre));
        }
    }
    proof {
        assert(data@.subrange(0, i as int) =~= data@);
    }
    r
}

/// Renders the printable form of a byte slice.
pub fn ascii_chars(data: &[u8]) -> (r: Vec<char>)
    ensures
        r@ == ascii_of(data@),
{
    let mut r: Vec<char> = Vec::new();
    let mut i: usize = 0;
    while i < data.len()
        invariant
            i <= data.len(),
            r@ == ascii_of(data@.subrange(0, i as int)),
        decreases data.len() - i,
    {
        let b = data[i];
        if 33 <= b && b <= 126 {
            r.push(b as char);
        } else {
            r.push('.');
        }
        i = i + 1;
        proof {
            assert(r@ =~= ascii_of(data@.subrange(0, i as int)));
        }
    }
    proof {
        assert(r@ =~= ascii_of(data@));
    }
    r
}


/// A quantity in tenths, rendered with one decimal place, truncated:
/// 123 becomes "12.3".
pub open spec fn one_dec(tenths: nat) -> Seq<char> {
    dec_digits(tenths / 10) + seq!['.', digit_char(tenths % 10)]
}

/// A quantity in hundredths, rendered with two decimal places,
/// truncated: 12345 becomes "123.45".
pub open spec fn two_dec(hundredths: nat) -> Seq<char> {
    dec_digits(hundredths / 100) + seq![
        '.',
        digit_char((hundredths % 100) / 10),
        digit_char(hundredths % 10),
    ]
}

/// Renders a quantity in hundredths with two decimal places.
pub fn two_dec_string(hundredths: u64) -> (r: String)
    ensures
        r@ == two_dec(hundredths as nat),
{
    let mut s = u64_to_string(hundredths / 100);
    push_char(&mut s, '.');
    push_char(&mut s, digit_to_char(((hundredths % 100) / 10) as u8));
    push_char(&mut s, digit_to_char((hundredths % 10) as u8));
    proof {
        assert(s@ =~= two_dec(hundredths as nat));
    }
    s
}


/// Appending one piece to a join: the separator, then the piece.
pub proof fn lemma_join_push(parts: Seq<Seq<char>>, x: Seq<char>, sep: char)
    requires
        parts.len() >= 1,
    ensures
        join_with(parts.push(x), sep) == join_with(parts, sep) + seq![sep] + x,
    decreases parts.len(),
{
    if parts.len() == 1 {
        assert(parts.push(x).drop_first() =~= seq![x]);
        assert(join_with(seq![x], sep) == x);
        assert(parts.push(x)[0] == parts[0]);
        assert(join_with(parts.push(x), sep) =~= join_with(parts, sep) + seq![sep] + x);
    } else {
        assert(parts.push(x).drop_first() =~= parts.drop_first().push(x));
        lemma_join_push(parts.drop_first(), x, sep);
        assert(join_with(parts.push(x), sep) =~= join_with(parts, sep) + seq![sep] + x);
    }
}

/// A join contains no character that neither the pieces nor the
/// separator contain.
pub proof fn lemma_join_free_of(parts: Seq<Seq<char>>, sep: char, c: char)
    requires
        c != sep,
        forall|i: int| 0 <= i < parts.len() ==> !(#[trigger] parts[i]).contains(c),
    ensures
        !join_with(parts, sep).contains(c),
    decreases parts.len(),
{
    let j = join_with(parts, sep);
    if parts.len() == 0 {
        if j.contains(c) {
            let i = choose|i: int| 0 <= i < j.len() && j[i] == c;
        }
    } else if parts.len() == 1 {
        assert(j == parts[0]);
    } else {
        assert(forall|i: int|
            0 <= i < parts.drop_first().len() ==> !(#[trigger] parts.drop_first()[i]).contains(
                c,
            )) by {
            assert(forall|i: int|
                0 <= i < parts.drop_first().len() ==> parts.drop_first()[i] == #[trigger] parts[
                    i + 1
                ]);
        }
        lemma_join_free_of(parts.drop_first(), sep, c);
        let rest = join_with(parts.drop_first(), sep);
        assert(j == parts[0] + seq![sep] + rest);
        if j.contains(c) {
            let i = choose|i: int| 0 <= i < j.len() && j[i] == c;
            if i < parts[0].len() {
                assert(parts[0][i] == c);
                assert(parts[0].contains(c));
            } else if i == parts[0].len() {
                assert(j[i] == sep);
            } else {
                assert(rest[i - parts[0].len() - 1] == c);
                assert(rest.contains(c));
            }
        }
    }
}

} // verus!
