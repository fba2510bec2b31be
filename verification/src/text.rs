use vstd::prelude::*;
use vstd::string::{StrSliceExecFns, StringExecFns};

verus! {

/// The digit `d` of a base up to sixteen.
pub open spec fn digit_char(d: int, upper: bool) -> char {
    if d < 10 {
        (48 + d) as char
    } else if upper {
        (55 + d) as char
    } else {
        (87 + d) as char
    }
}

/// `n` written in decimal, without leading zeros.
pub open spec fn decimal(n: nat) -> Seq<char>
    decreases n,
{
    if n < 10 {
        seq![digit_char(n as int, true)]
    } else {
        decimal(n / 10).push(digit_char((n % 10) as int, true))
    }
}

/// `n` written in decimal, with a minus sign where it is negative.
pub open spec fn signed_decimal(n: int) -> Seq<char> {
    if n < 0 {
        seq!['-'] + decimal((-n) as nat)
    } else {
        decimal(n as nat)
    }
}

/// The low `width` hexadecimal digits of `n`, with leading zeros.
pub open spec fn fixed_hex(n: nat, width: nat, upper: bool) -> Seq<char>
    decreases width,
{
    if width == 0 {
        Seq::empty()
    } else {
        fixed_hex(n / 16, (width - 1) as nat, upper).push(digit_char((n % 16) as int, upper))
    }
}

fn digit_text(d: u64, upper: bool) -> (r: &'static str)
    requires
        d < 16,
    ensures
        r@ == seq![digit_char(d as int, upper)],
{
    proof {
        reveal_strlit("0");
        reveal_strlit("1");
        reveal_strlit("2");
        reveal_strlit("3");
        reveal_strlit("4");
        reveal_strlit("5");
        reveal_strlit("6");
        reveal_strlit("7");
        reveal_strlit("8");
        reveal_strlit("9");
        reveal_strlit("A");
        reveal_strlit("B");
        reveal_strlit("C");
        reveal_strlit("D");
        reveal_strlit("E");
        reveal_strlit("F");
        reveal_strlit("a");
        reveal_strlit("b");
        reveal_strlit("c");
        reveal_strlit("d");
        reveal_strlit("e");
        reveal_strlit("f");
    }
    let r: &'static str = match (d, upper) {
        (0, _) => "0",
        (1, _) => "1",
        (2, _) => "2",
        (3, _) => "3",
        (4, _) => "4",
        (5, _) => "5",
        (6, _) => "6",
        (7, _) => "7",
        (8, _) => "8",
        (9, _) => "9",
        (10, true) => "A",
        (11, true) => "B",
        (12, true) => "C",
        (13, true) => "D",
        (14, true) => "E",
        (_, true) => "F",
        (10, false) => "a",
        (11, false) => "b",
        (12, false) => "c",
        (13, false) => "d",
        (14, false) => "e",
        (_, false) => "f",
    };
    assert(r@ =~= seq![digit_char(d as int, upper)]);
    r
}

/// Appends `n` in decimal.
pub fn push_decimal(s: &mut String, n: u64)
    ensures
        final(s)@ == old(s)@ + decimal(n as nat),
    decreases n,
{
    if n >= 10 {
        push_decimal(s, n / 10);
    }
    s.append(digit_text(n % 10, true));
    assert(s@ =~= old(s)@ + decimal(n as nat));
}

/// Appends `n` in decimal, with its sign where it is negative.
pub fn push_signed(s: &mut String, n: i64)
    ensures
        final(s)@ == old(s)@ + signed_decimal(n as int),
{
    if n < 0 {
        proof {
            reveal_strlit("-");
        }
        s.append("-");
        let magnitude: u64 = if n == i64::MIN {
            9_223_372_036_854_775_808
        } else {
            (-n) as u64
        };
        push_decimal(s, magnitude);
        assert(s@ =~= old(s)@ + signed_decimal(n as int));
    } else {
        push_decimal(s, n as u64);
    }
}

/// Appends the low `width` hexadecimal digits of `n`.
pub fn push_hex(s: &mut String, n: u64, width: u32, upper: bool)
    ensures
        final(s)@ == old(s)@ + fixed_hex(n as nat, width as nat, upper),
    decreases width,
{
    if width > 0 {
        push_hex(s, n / 16, width - 1, upper);
        s.append(digit_text(n % 16, upper));
    }
    assert(s@ =~= old(s)@ + fixed_hex(n as nat, width as nat, upper));
}

/// Whether all characters are decimal digits.
pub open spec fn all_digits(s: Seq<char>) -> bool {
    forall|i: int| 0 <= i < s.len() ==> '0' <= #[trigger] s[i] <= '9'
}

/// The number that decimal digits stand for.
pub open spec fn digits_value(s: Seq<char>) -> nat
    decreases s.len(),
{
    if s.len() == 0 {
        0
    } else {
        10 * digits_value(s.drop_last()) + (s.last() as nat - '0' as nat) as nat
    }
}

/// Whether some digits make a number without leading zeros.
pub open spec fn is_plain_number(s: Seq<char>) -> bool {
    &&& s.len() > 0
    &&& all_digits(s)
    &&& s.len() > 1 ==> s[0] != '0'
}

/// Numbers are written with digits, without leading zeros, and read back.
pub proof fn lemma_decimal_reads_back(n: nat)
    ensures
        is_plain_number(decimal(n)),
        digits_value(decimal(n)) == n,
        n > 0 ==> decimal(n)[0] != '0',
    decreases n,
{
    if n >= 10 {
        lemma_decimal_reads_back(n / 10);
        assert(decimal(n).drop_last() =~= decimal(n / 10));
    } else {
        assert(decimal(n).drop_last() =~= Seq::<char>::empty());
        assert(digits_value(Seq::<char>::empty()) == 0);
    }
}

/// Digits without leading zeros are how their number is written.
pub proof fn lemma_plain_number_is_decimal(s: Seq<char>)
    requires
        is_plain_number(s),
    ensures
        s == decimal(digits_value(s)),
        s[0] != '0' ==> digits_value(s) > 0,
    decreases s.len(),
{
    let rest = s.drop_last();
    let d = (s.last() as nat - '0' as nat) as nat;
    if rest.len() == 0 {
        assert(digits_value(rest) == 0);
        assert(s =~= decimal(d));
    } else {
        assert(rest[0] == s[0]);
        assert forall|i: int| 0 <= i < rest.len() implies '0' <= #[trigger] rest[i] <= '9' by {
            assert(rest[i] == s[i]);
        }
        lemma_plain_number_is_decimal(rest);
        assert(digits_value(s) >= 10);
        assert(s =~= decimal(digits_value(rest)).push(s.last()));
    }
}

proof fn lemma_value_grows(s: Seq<char>, k: int)
    requires
        0 <= k <= s.len(),
        all_digits(s),
    ensures
        digits_value(s.take(k)) <= digits_value(s),
    decreases s.len(),
{
    if k == s.len() {
        assert(s.take(k) =~= s);
    } else {
        let rest = s.drop_last();
        assert forall|i: int| 0 <= i < rest.len() implies '0' <= #[trigger] rest[i] <= '9' by {
            assert(rest[i] == s[i]);
        }
        lemma_value_grows(rest, k);
        assert(rest.take(k) =~= s.take(k));
    }
}

/// The number up to `max` that decimal digits stand for, if they do.
pub open spec fn number_of(s: Seq<char>, max: nat) -> Option<nat> {
    if s.len() > 0 && all_digits(s) && digits_value(s) <= max {
        Some(digits_value(s))
    } else {
        None
    }
}

/// Reads a number up to `max` from decimal digits.
pub fn read_number(s: &str, max: u32) -> (r: Option<u32>)
    ensures
        match r {
            Some(n) => number_of(s@, max as nat) == Some(n as nat),
            None => number_of(s@, max as nat) is None,
        },
{
    let n: usize = s.unicode_len();
    let mut value: u64 = 0;
    let mut i: usize = 0;
    while i < n
        invariant
            i <= n == s@.len(),
            all_digits(s@.take(i as int)),
            value == digits_value(s@.take(i as int)),
            value <= max,
        decreases n - i,
    {
        let c: char = s.get_char(i);
        if c < '0' || c > '9' {
            assert(!all_digits(s@));
            return None;
        }
        let ghost next = s@.take(i + 1);
        assert(next.drop_last() =~= s@.take(i as int));
        assert forall|j: int| 0 <= j < next.len() implies '0' <= #[trigger] next[j] <= '9' by {
            if j < i {
                assert(next[j] == s@.take(i as int)[j]);
            }
        }
        value = value * 10 + (c as u32 - '0' as u32) as u64;
        if value > max as u64 {
            proof {
                if all_digits(s@) {
                    lemma_value_grows(s@, i + 1);
                }
            }
            return None;
        }
        i += 1;
    }
    assert(s@.take(n as int) =~= s@);
    if n == 0 {
        None
    } else {
        Some(value as u32)
    }
}

/// The first place at or after `from` where `pattern` stands, or -1.
pub open spec fn find(s: Seq<char>, pattern: Seq<char>, from: int) -> int
    decreases s.len() - from,
{
    if from < 0 || from + pattern.len() > s.len() {
        -1
    } else if s.subrange(from, from + pattern.len()) == pattern {
        from
    } else if from == s.len() {
        -1
    } else {
        find(s, pattern, from + 1)
    }
}

/// The last place before `end` where `c` stands, or -1.
pub open spec fn find_last(s: Seq<char>, c: char, end: int) -> int
    decreases end,
{
    if end <= 0 {
        -1
    } else if s[end - 1] == c {
        end - 1
    } else {
        find_last(s, c, end - 1)
    }
}

/// Whether `pattern` stands at `at`.
pub fn stands_at(s: &str, pattern: &str, at: usize) -> (r: bool)
    requires
        at <= s@.len(),
    ensures
        r == (at + pattern@.len() <= s@.len() && s@.subrange(at as int, at + pattern@.len())
            == pattern@),
{
    let n: usize = s.unicode_len();
    let m: usize = pattern.unicode_len();
    if m > n - at {
        return false;
    }
    let ghost there = s@.subrange(at as int, at + m);
    let mut i: usize = 0;
    while i < m
        invariant
            i <= m == pattern@.len(),
            at + m <= n == s@.len(),
            there == s@.subrange(at as int, at + m),
            forall|k: int| 0 <= k < i ==> there[k] == pattern@[k],
        decreases m - i,
    {
        let c: char = s.get_char(at + i);
        assert(c == there[i as int]);
        if c != pattern.get_char(i) {
            return false;
        }
        i += 1;
    }
    assert(there =~= pattern@);
    true
}

/// Looks for the first place of `pattern` at or after `from`.
pub fn find_text(s: &str, pattern: &str, from: usize) -> (r: Option<usize>)
    requires
        from <= s@.len(),
    ensures
        match r {
            Some(i) => i == find(s@, pattern@, from as int),
            None => find(s@, pattern@, from as int) == -1,
        },
        r matches Some(i) ==> from <= i && i + pattern@.len() <= s@.len(),
{
    let n: usize = s.unicode_len();
    let m: usize = pattern.unicode_len();
    let mut i: usize = from;
    while m <= n - i
        invariant
            from <= i <= n == s@.len(),
            m == pattern@.len(),
            find(s@, pattern@, from as int) == find(s@, pattern@, i as int),
        decreases n - i,
    {
        if stands_at(s, pattern, i) {
            return Some(i);
        }
        if i == n {
            return None;
        }
        i += 1;
    }
    None
}

/// Looks for the last place of a character.
pub fn find_last_char(s: &str, c: char) -> (r: Option<usize>)
    ensures
        match r {
            Some(i) => i == find_last(s@, c, s@.len() as int) && i < s@.len(),
            None => find_last(s@, c, s@.len() as int) == -1,
        },
{
    let mut end: usize = s.unicode_len();
    while end > 0
        invariant
            end <= s@.len(),
            find_last(s@, c, s@.len() as int) == find_last(s@, c, end as int),
        decreases end,
    {
        if s.get_char(end - 1) == c {
            return Some(end - 1);
        }
        end -= 1;
    }
    None
}

/// A letter of the basic alphabet in lower case; any other character as it is.
pub open spec fn lower_letter(c: char) -> char {
    if 'A' <= c <= 'Z' {
        (c as int + 32) as char
    } else {
        c
    }
}

/// Whether `s` is `word`, written in letters of either case.
pub open spec fn spells(s: Seq<char>, word: Seq<char>) -> bool {
    &&& s.len() == word.len()
    &&& forall|i: int| 0 <= i < s.len() ==> lower_letter(#[trigger] s[i]) == word[i]
}

/// Whether `s` is `word`, written in letters of either case.
pub fn is_spelled(s: &str, word: &str) -> (r: bool)
    ensures
        r == spells(s@, word@),
{
    let n: usize = s.unicode_len();
    if n != word.unicode_len() {
        return false;
    }
    let mut i: usize = 0;
    while i < n
        invariant
            i <= n == s@.len() == word@.len(),
            forall|k: int| 0 <= k < i ==> lower_letter(#[trigger] s@[k]) == word@[k],
        decreases n - i,
    {
        let c: char = s.get_char(i);
        let w: char = word.get_char(i);
        let same = if 'A' <= c && c <= 'Z' {
            c as u32 + 32 == w as u32
        } else {
            c == w
        };
        if !same {
            return false;
        }
        i += 1;
    }
    true
}

/// What `str::to_lowercase` makes of a text.
pub uninterp spec fn lowercase(s: Seq<char>) -> Seq<char>;

/// Calls `str::to_lowercase`: the text in lower case, by the rules of Unicode,
/// which depends on nothing but the text.
#[verifier::external_body]
pub(crate) fn to_lowercase(s: &str) -> (r: String)
    ensures
        r@ == lowercase(s@),
{
    s.to_lowercase()
}

/// The sixteen digits are those in common use.
pub proof fn law_digits_are_the_usual_ones(d: int)
    requires
        0 <= d < 16,
    ensures
        digit_char(d, false) == "0123456789abcdef"@[d],
        digit_char(d, true) == "0123456789ABCDEF"@[d],
{
    reveal_strlit("0123456789abcdef");
    reveal_strlit("0123456789ABCDEF");
}

/// A digit behind a number is worth one, and what stands before it ten times
/// as much as alone; negative numbers are written behind a minus sign.
pub proof fn law_numbers_are_written_in_tens(n: nat, d: nat)
    requires
        d < 10,
    ensures
        decimal(d) == seq!["0123456789"@[d as int]],
        n > 0 ==> decimal(10 * n + d) == decimal(n).push("0123456789"@[d as int]),
        n > 0 ==> signed_decimal(-(n as int)) == seq!['-'] + decimal(n),
        signed_decimal(n as int) == decimal(n),
{
    reveal_strlit("0123456789");
    if n > 0 {
        assert((10 * n + d) / 10 == n && (10 * n + d) % 10 == d);
    }
}

/// Sixteen to the power of `k`.
pub open spec fn sixteens(k: nat) -> nat
    decreases k,
{
    if k == 0 {
        1
    } else {
        16 * sixteens((k - 1) as nat)
    }
}

/// The digit at place `k`, counted from the right, counts the sixteens to that
/// power; there are as many digits as asked for.
#[verifier::spinoff_prover]
pub proof fn law_hex_digits_have_their_places(n: nat, width: nat, k: nat)
    requires
        k < width,
    ensures
        fixed_hex(n, width, false).len() == width,
        fixed_hex(n, width, true).len() == width,
        fixed_hex(n, width, false)[width - 1 - k] == "0123456789abcdef"@[(n / sixteens(k) % 16) as int],
        fixed_hex(n, width, true)[width - 1 - k] == "0123456789ABCDEF"@[(n / sixteens(k) % 16) as int],
    decreases width,
{
    law_digits_are_the_usual_ones((n / sixteens(k) % 16) as int);
    let w = (width - 1) as nat;
    assert(fixed_hex(n, width, false) == fixed_hex(n / 16, w, false).push(
        digit_char((n % 16) as int, false),
    ));
    assert(fixed_hex(n, width, true) == fixed_hex(n / 16, w, true).push(
        digit_char((n % 16) as int, true),
    ));
    if w == 0 {
        assert(fixed_hex(n / 16, 0, false).len() == 0);
        assert(fixed_hex(n / 16, 0, true).len() == 0);
    } else {
        let j = if k > 0 {
            (k - 1) as nat
        } else {
            0
        };
        law_hex_digits_have_their_places(n / 16, w, j);
        if k > 0 {
            lemma_sixteens_positive(j);
            vstd::arithmetic::div_mod::lemma_div_denominator(n as int, 16, sixteens(j) as int);
            assert(n / 16 / sixteens(j) == n / sixteens(k));
            assert(w - 1 - j == width - 1 - k);
        }
    }
    if k == 0 {
        assert(sixteens(0) == 1);
        assert(n / 1 == n);
    }
}

proof fn lemma_sixteens_positive(k: nat)
    ensures
        sixteens(k) > 0,
    decreases k,
{
    if k > 0 {
        lemma_sixteens_positive((k - 1) as nat);
    }
}

/// A search finds the first place where the pattern stands, and nothing only
/// where it stands nowhere.
pub proof fn law_search_finds_the_first_place(s: Seq<char>, pattern: Seq<char>, from: int, i: int)
    requires
        0 <= from <= i,
        i + pattern.len() <= s.len(),
        s.subrange(i, i + pattern.len()) == pattern,
    ensures
        ({
            let r = find(s, pattern, from);
            &&& from <= r <= i
            &&& r + pattern.len() <= s.len()
            &&& s.subrange(r, r + pattern.len()) == pattern
        }),
    decreases i - from,
{
    if s.subrange(from, from + pattern.len()) != pattern {
        law_search_finds_the_first_place(s, pattern, from + 1, i);
    }
}

/// What a search finds is there.
pub proof fn law_found_places_hold_the_pattern(s: Seq<char>, pattern: Seq<char>, from: int)
    requires
        0 <= from <= s.len(),
    ensures
        ({
            let r = find(s, pattern, from);
            r == -1 || (from <= r && r + pattern.len() <= s.len() && s.subrange(
                r,
                r + pattern.len(),
            ) == pattern)
        }),
    decreases s.len() - from,
{
    if from < s.len() {
        law_found_places_hold_the_pattern(s, pattern, from + 1);
    }
}

/// A search from the end finds the last place of a character, and nothing only
/// where it stands nowhere.
pub proof fn law_search_from_the_end_finds_the_last_place(s: Seq<char>, c: char, end: int, i: int)
    requires
        0 <= i < end <= s.len(),
    ensures
        s[i] == c ==> i <= find_last(s, c, end) < end && s[find_last(s, c, end)] == c,
        find_last(s, c, end) == -1 ==> s[i] != c,
        find_last(s, c, end) != -1 ==> 0 <= find_last(s, c, end) < end && s[find_last(s, c, end)]
            == c,
    decreases end,
{
    if s[end - 1] != c {
        if i < end - 1 {
            law_search_from_the_end_finds_the_last_place(s, c, end - 1, i);
        } else if end - 1 > 0 {
            law_search_from_the_end_finds_the_last_place(s, c, end - 1, 0);
        }
    }
}

/// A word of small letters is spelled by the same letters, small or capital,
/// and by nothing else.
pub proof fn law_words_are_spelled_in_either_case(s: Seq<char>, word: Seq<char>)
    requires
        forall|i: int| 0 <= i < word.len() ==> 'a' <= #[trigger] word[i] <= 'z',
    ensures
        spells(s, word) <==> s.len() == word.len() && forall|i: int|
            0 <= i < s.len() ==> (#[trigger] s[i]) == word[i] || s[i] as int + 32 == word[i] as int,
{
    if spells(s, word) {
        assert forall|i: int| 0 <= i < s.len() implies (#[trigger] s[i]) == word[i] || s[i] as int
            + 32 == word[i] as int by {
            assert(lower_letter(s[i]) == word[i]);
        }
    }
    if s.len() == word.len() && forall|i: int|
        0 <= i < s.len() ==> (#[trigger] s[i]) == word[i] || s[i] as int + 32 == word[i] as int {
        assert forall|i: int| 0 <= i < s.len() implies lower_letter(#[trigger] s[i]) == word[i] by {
            assert('a' <= word[i] <= 'z');
        }
    }
}

/// A number up to the limit is read from its digits, and none above it.
pub proof fn law_numbers_up_to_the_limit_are_read(n: nat, max: nat)
    ensures
        n <= max ==> number_of(decimal(n), max) == Some(n),
        n > max ==> number_of(decimal(n), max) is None,
        number_of(Seq::empty(), max) is None,
{
    lemma_decimal_reads_back(n);
}

} // verus!
