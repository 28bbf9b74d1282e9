use vstd::prelude::*;

verus! {

/// The characters that `char::is_whitespace` accepts (Unicode `White_Space`).
pub open spec fn is_ws(c: char) -> bool {
    let u = c as u32;
    ||| 9 <= u <= 13
    ||| u == 32
    ||| u == 0x85
    ||| u == 0xA0
    ||| u == 0x1680
    ||| 0x2000 <= u <= 0x200A
    ||| u == 0x2028
    ||| u == 0x2029
    ||| u == 0x202F
    ||| u == 0x205F
    ||| u == 0x3000
}

pub fn char_is_ws(c: char) -> (r: bool)
    ensures
        r == is_ws(c),
{
    let u = c as u32;
    (9 <= u && u <= 13) || u == 32 || u == 0x85 || u == 0xA0 || u == 0x1680 || (0x2000 <= u
        && u <= 0x200A) || u == 0x2028 || u == 0x2029 || u == 0x202F || u == 0x205F || u
        == 0x3000
}

/// The characters of a string slice, in order.
pub fn chars_of(s: &str) -> (r: Vec<char>)
    ensures
        r@ == s@,
{
    let n = s.unicode_len();
    let mut r: Vec<char> = Vec::new();
    let mut i: usize = 0;
    while i < n
        invariant
            n == s@.len(),
            i <= n,
            r@ == s@.take(i as int),
        decreases n - i,
    {
        let c = s.get_char(i);
        r.push(c);
        i = i + 1;
        assert(r@ =~= s@.take(i as int));
    }
    assert(r@ =~= s@);
    r
}

/// Character-wise equality of two string slices.
pub fn str_eq(a: &str, b: &str) -> (r: bool)
    ensures
        r == (a@ == b@),
{
    let n = a.unicode_len();
    let m = b.unicode_len();
    if n != m {
        return false;
    }
    let mut i: usize = 0;
    while i < n
        invariant
            n == a@.len(),
            m == b@.len(),
            n == m,
            i <= n,
            forall|j: int| 0 <= j < i ==> a@[j] == b@[j],
        decreases n - i,
    {
        if a.get_char(i) != b.get_char(i) {
            return false;
        }
        i = i + 1;
    }
    assert(a@ =~= b@);
    true
}

/// Splitting by whitespace, as a fold from the left: the tokens completed so
/// far and the token that is being read.
pub open spec fn ws_fold(s: Seq<char>) -> (Seq<Seq<char>>, Seq<char>)
    decreases s.len(),
{
    if s.len() == 0 {
        (seq![], seq![])
    } else {
        let (done, cur) = ws_fold(s.drop_last());
        let c = s.last();
        if is_ws(c) {
            if cur.len() > 0 {
                (done.push(cur), seq![])
            } else {
                (done, seq![])
            }
        } else {
            (done, cur.push(c))
        }
    }
}

/// The maximal runs of non-whitespace characters of `s`, in order
/// (what `str::split_whitespace` yields).
pub open spec fn split_ws(s: Seq<char>) -> Seq<Seq<char>> {
    let (done, cur) = ws_fold(s);
    if cur.len() > 0 {
        done.push(cur)
    } else {
        done
    }
}

pub open spec fn views(v: Seq<String>) -> Seq<Seq<char>> {
    v.map_values(|x: String| x@)
}

/// The whitespace-separated tokens of `s`.
pub fn split_whitespace(s: &str) -> (r: Vec<String>)
    ensures
        views(r@) == split_ws(s@),
{
    let cs = chars_of(s);
    let n = cs.len();
    let mut toks: Vec<String> = Vec::new();
    let mut start: usize = 0;
    let mut i: usize = 0;
    while i < n
        invariant
            n == cs@.len(),
            cs@ == s@,
            start <= i <= n,
            ws_fold(s@.take(i as int)) == (views(toks@), s@.subrange(start as int, i as int)),
        decreases n - i,
    {
        let c = cs[i];
        proof {
            assert(s@.take(i + 1).drop_last() =~= s@.take(i as int));
            assert(s@.take(i + 1).last() == c);
        }
        if char_is_ws(c) {
            if start < i {
                let t = s.substring_char(start, i).to_owned();
                let ghost before = toks@;
                toks.push(t);
                assert(views(toks@) =~= views(before).push(t@));
            }
            start = i + 1;
            assert(s@.subrange(start as int, (i + 1) as int) =~= seq![]);
        } else {
            assert(s@.subrange(start as int, (i + 1) as int) =~= s@.subrange(
                start as int,
                i as int,
            ).push(c));
        }
        i = i + 1;
    }
    assert(s@.take(n as int) =~= s@);
    if start < n {
        let t = s.substring_char(start, n).to_owned();
        let ghost before = toks@;
        toks.push(t);
        assert(views(toks@) =~= views(before).push(t@));
    }
    toks
}

pub open spec fn is_digit(c: char) -> bool {
    '0' <= c <= '9'
}

pub open spec fn digits_value(s: Seq<char>) -> nat
    decreases s.len(),
{
    if s.len() == 0 {
        0
    } else {
        digits_value(s.drop_last()) * 10 + (s.last() as nat - '0' as nat) as nat
    }
}

pub open spec fn all_digits(s: Seq<char>) -> bool {
    forall|i: int| 0 <= i < s.len() ==> is_digit(#[trigger] s[i])
}

/// The digits part of a decimal literal: a leading `+` is dropped.
pub open spec fn unsigned_digits(s: Seq<char>) -> Seq<char> {
    if s.len() > 0 && s[0] == '+' {
        s.skip(1)
    } else {
        s
    }
}

/// What `str::parse` gives for an unsigned integer type whose largest value is
/// `max`: an optional `+`, then one or more ASCII digits, with a value that fits.
pub open spec fn parse_unsigned(s: Seq<char>, max: nat) -> Option<nat> {
    let d = unsigned_digits(s);
    if d.len() > 0 && all_digits(d) && digits_value(d) <= max {
        Some(digits_value(d))
    } else {
        None
    }
}

proof fn lemma_digits_value_grows(s: Seq<char>, i: int)
    requires
        0 <= i <= s.len(),
        all_digits(s),
    ensures
        digits_value(s.take(i)) <= digits_value(s),
    decreases s.len() - i,
{
    if i < s.len() {
        lemma_digits_value_grows(s, i + 1);
        assert(s.take(i + 1).drop_last() =~= s.take(i));
        assert(is_digit(s[i]));
    } else {
        assert(s.take(i) =~= s);
    }
}

/// Parses an unsigned decimal literal bounded by `max` (as `str::parse` does
/// for `u8`, `u16`, `u32`, `u64` and `usize`).
pub fn parse_decimal(s: &str, max: u64) -> (r: Option<u64>)
    ensures
        match r {
            Some(v) => parse_unsigned(s@, max as nat) == Some(v as nat),
            None => parse_unsigned(s@, max as nat) is None,
        },
{
    let cs = chars_of(s);
    let n = cs.len();
    let mut i: usize = 0;
    if n > 0 && cs[0] == '+' {
        i = 1;
    }
    let ghost d = unsigned_digits(s@);
    assert(d =~= s@.skip(i as int));
    if i == n {
        return None;
    }
    let ghost first = i;
    let mut val: u64 = 0;
    while i < n
        invariant
            n == cs@.len(),
            cs@ == s@,
            d == s@.skip(first as int),
            d == unsigned_digits(s@),
            first < n,
            first <= i <= n,
            all_digits(d.take(i - first)),
            val as nat == digits_value(d.take(i - first)),
            val <= max,
        decreases n - i,
    {
        let c = cs[i];
        let ghost k = (i - first) as int;
        assert(d[k] == c);
        if !('0' <= c && c <= '9') {
            assert(!is_digit(d[k]));
            assert(!all_digits(d));
            return None;
        }
        let dig = (c as u32 - '0' as u32) as u64;
        assert(d.take(k + 1).drop_last() =~= d.take(k));
        assert(d.take(k + 1).last() == c);
        if dig > max || val > (max - dig) / 10 {
            proof {
                if dig <= max {
                    assert(val * 10 + dig > max) by (nonlinear_arith)
                        requires
                            val > (max - dig) / 10,
                            dig <= max,
                    ;
                }
            }
            assert(all_digits(d.take(k + 1)));
            proof {
                if all_digits(d) {
                    lemma_digits_value_grows(d, k + 1);
                }
            }
            return None;
        }
        proof {
            assert(val * 10 + dig <= max) by (nonlinear_arith)
                requires
                    val <= (max - dig) / 10,
                    dig <= max,
            ;
        }
        val = val * 10 + dig;
        i = i + 1;
        assert(all_digits(d.take(i - first))) by {
            assert(d.take(k + 1) =~= d.take(k).push(c));
        }
    }
    assert(d.take(n - first) =~= d);
    Some(val)
}

/// What `str::parse::<bool>` gives: `true` and `false` are accepted and
/// nothing else.
pub open spec fn parse_bool_spec(s: Seq<char>) -> Option<bool> {
    if s == "true"@ {
        Some(true)
    } else if s == "false"@ {
        Some(false)
    } else {
        None
    }
}

pub fn parse_bool(s: &str) -> (r: Option<bool>)
    ensures
        r == parse_bool_spec(s@),
{
    if str_eq(s, "true") {
        Some(true)
    } else if str_eq(s, "false") {
        Some(false)
    } else {
        None
    }
}


/// The decimal digits of `n`, most significant first, without leading zeros.
pub open spec fn decimal(n: nat) -> Seq<char>
    decreases n,
{
    if n < 10 {
        seq![digit_char(n)]
    } else {
        decimal(n / 10).push(digit_char(n % 10))
    }
}

pub open spec fn digit_char(d: nat) -> char {
    ((d + '0' as nat) as u32) as char
}

fn digit_str(d: usize) -> (r: &'static str)
    requires
        d < 10,
    ensures
        r@ == seq![digit_char(d as nat)],
{
    proof {
        reveal_strlit("0");
        reveal_strlit("1");
        reveal_strlit("2");
        reveal_strlit("3");
        reveal_strlit("4");
        reveal_strlit("5");
        reveal_strlit("6");
        reveal_strlit("7");
        reveal_strlit("8");
        reveal_strlit("9");
    }
    let r = if d == 0 {
        "0"
    } else if d == 1 {
        "1"
    } else if d == 2 {
        "2"
    } else if d == 3 {
        "3"
    } else if d == 4 {
        "4"
    } else if d == 5 {
        "5"
    } else if d == 6 {
        "6"
    } else if d == 7 {
        "7"
    } else if d == 8 {
        "8"
    } else {
        "9"
    };
    assert(r@ =~= seq![digit_char(d as nat)]);
    r
}

/// The decimal representation of `n` (what `usize::to_string` gives).
pub fn usize_to_string(n: usize) -> (r: String)
    ensures
        r@ == decimal(n as nat),
    decreases n,
{
    if n < 10 {
        digit_str(n).to_owned()
    } else {
        let mut r = usize_to_string(n / 10);
        r.append(digit_str(n % 10));
        r
    }
}


/// The decimal representation of `n` (what `u64::to_string` gives).
pub fn u64_to_string(n: u64) -> (r: String)
    ensures
        r@ == decimal(n as nat),
    decreases n,
{
    if n < 10 {
        digit_str(n as usize).to_owned()
    } else {
        let mut r = u64_to_string(n / 10);
        r.append(digit_str((n % 10) as usize));
        r
    }
}

/// The decimal representation of `i`, with a `-` before a negative number.
pub open spec fn signed_decimal(i: int) -> Seq<char> {
    if i < 0 {
        "-"@ + decimal((-i) as nat)
    } else {
        decimal(i as nat)
    }
}

/// The decimal representation of `i` (what `i64::to_string` gives).
pub fn i64_to_string(i: i64) -> (r: String)
    ensures
        r@ == signed_decimal(i as int),
{
    if i < 0 {
        let m: u64 = if i == i64::MIN {
            9223372036854775808u64
        } else {
            (-i) as u64
        };
        let mut r = "-".to_owned();
        let digits = u64_to_string(m);
        r.append(digits.as_str());
        r
    } else {
        u64_to_string(i as u64)
    }
}

proof fn lemma_digit_char_injective(a: nat, b: nat)
    requires
        a < 10,
        b < 10,
        digit_char(a) == digit_char(b),
    ensures
        a == b,
{
    assert((digit_char(a) as u32) == a + 48);
    assert((digit_char(b) as u32) == b + 48);
}

pub proof fn lemma_decimal_len(n: nat)
    ensures
        decimal(n).len() >= 1,
        n >= 10 ==> decimal(n).len() >= 2,
    decreases n,
{
    if n >= 10 {
        lemma_decimal_len(n / 10);
    }
}

/// Different numbers have different decimal representations.
pub proof fn lemma_decimal_injective(a: nat, b: nat)
    requires
        decimal(a) == decimal(b),
    ensures
        a == b,
    decreases a + b,
{
    lemma_decimal_len(a);
    lemma_decimal_len(b);
    if a < 10 && b < 10 {
        assert(decimal(a)[0] == digit_char(a));
        assert(decimal(b)[0] == digit_char(b));
        lemma_digit_char_injective(a, b);
    } else if a >= 10 && b >= 10 {
        assert(decimal(a).last() == digit_char(a % 10));
        assert(decimal(b).last() == digit_char(b % 10));
        lemma_digit_char_injective(a % 10, b % 10);
        assert(decimal(a).drop_last() =~= decimal(a / 10));
        assert(decimal(b).drop_last() =~= decimal(b / 10));
        lemma_decimal_injective(a / 10, b / 10);
    }
}

/// The decimal representations of the numbers below `n`.
pub open spec fn decimals_below(n: nat) -> Set<Seq<char>> {
    Set::new(|k: Seq<char>| exists|i: nat| i < n && k == decimal(i))
}

pub proof fn lemma_decimals_below(n: nat)
    ensures
        decimals_below(n).finite(),
        decimals_below(n).len() == n,
        !decimals_below(n).contains(decimal(n)),
        decimals_below(n + 1) == decimals_below(n).insert(decimal(n)),
    decreases n,
{
    assert(decimals_below(n + 1) =~= decimals_below(n).insert(decimal(n)));
    if decimals_below(n).contains(decimal(n)) {
        let i = choose|i: nat| i < n && decimal(n) == decimal(i);
        lemma_decimal_injective(n, i);
    }
    if n == 0 {
        assert(decimals_below(0) =~= Set::<Seq<char>>::empty());
    } else {
        lemma_decimals_below((n - 1) as nat);
    }
}


/// `s` with `to` before every character and at the end (what replacing the
/// empty pattern gives).
pub open spec fn interleave(s: Seq<char>, to: Seq<char>) -> Seq<char>
    decreases s.len(),
{
    if s.len() == 0 {
        to
    } else {
        to + seq![s[0]] + interleave(s.skip(1), to)
    }
}

/// `s` with each occurrence of `from`, found from left to right without
/// overlaps, replaced by `to` (what `str::replace` gives).
pub open spec fn replace_all(s: Seq<char>, from: Seq<char>, to: Seq<char>) -> Seq<char>
    decreases s.len(),
{
    if from.len() == 0 {
        interleave(s, to)
    } else if s.len() < from.len() {
        s
    } else if s.take(from.len() as int) == from {
        to + replace_all(s.skip(from.len() as int), from, to)
    } else {
        seq![s[0]] + replace_all(s.skip(1), from, to)
    }
}

proof fn lemma_skip_skip(s: Seq<char>, a: int, b: int)
    requires
        0 <= a,
        0 <= b,
        a + b <= s.len(),
    ensures
        s.skip(a).skip(b) == s.skip(a + b),
{
    assert(s.skip(a).skip(b) =~= s.skip(a + b));
}

/// Whether `from` occurs in `s` at position `i`.
fn occurs_at(s: &Vec<char>, from: &Vec<char>, i: usize) -> (r: bool)
    requires
        i + from@.len() <= s@.len(),
    ensures
        r == (s@.skip(i as int).take(from@.len() as int) == from@),
{
    let mut j: usize = 0;
    let n = s.len();
    while j < from.len()
        invariant
            n == s@.len(),
            i + from@.len() <= s@.len(),
            j <= from@.len(),
            forall|t: int| 0 <= t < j ==> s@[i + t] == from@[t],
        decreases from@.len() - j,
    {
        if s[i + j] != from[j] {
            assert(s@.skip(i as int).take(from@.len() as int)[j as int] != from@[j as int]);
            return false;
        }
        j = j + 1;
    }
    assert(s@.skip(i as int).take(from@.len() as int) =~= from@);
    true
}

/// Replaces every occurrence of `from` in `s` by `to`.
pub fn replace(s: &str, from: &str, to: &str) -> (r: String)
    ensures
        r@ == replace_all(s@, from@, to@),
{
    let cs = chars_of(s);
    let fs = chars_of(from);
    let n = cs.len();
    let m = fs.len();
    let mut r = String::new();
    let mut i: usize = 0;
    assert(s@.skip(0) =~= s@);
    if m == 0 {
        while i < n
            invariant
                n == s@.len(),
                cs@ == s@,
                i <= n,
                from@.len() == 0,
                r@ + interleave(s@.skip(i as int), to@) == interleave(s@, to@),
            decreases n - i,
        {
            let ghost rest = s@.skip(i as int);
            assert(rest.skip(1) =~= s@.skip(i + 1));
            r.append(to);
            r.append(s.substring_char(i, i + 1));
            assert(s@.subrange(i as int, i + 1) =~= seq![rest[0]]);
            i = i + 1;
            assert(r@ + interleave(s@.skip(i as int), to@) =~= interleave(s@, to@));
        }
        assert(s@.skip(n as int) =~= Seq::<char>::empty());
        r.append(to);
        assert(r@ =~= interleave(s@, to@));
        return r;
    }
    while i < n
        invariant
            n == s@.len(),
            cs@ == s@,
            fs@ == from@,
            m == from@.len(),
            m > 0,
            i <= n,
            r@ + replace_all(s@.skip(i as int), from@, to@) == replace_all(s@, from@, to@),
        decreases n - i,
    {
        let ghost rest = s@.skip(i as int);
        if n - i < m {
            assert(replace_all(rest, from@, to@) == rest);
            r.append(s.substring_char(i, n));
            assert(s@.subrange(i as int, n as int) =~= rest);
            assert(s@.skip(n as int) =~= Seq::<char>::empty());
            assert(r@ =~= replace_all(s@, from@, to@));
            return r;
        }
        if occurs_at(&cs, &fs, i) {
            r.append(to);
            proof {
                lemma_skip_skip(s@, i as int, m as int);
            }
            i = i + m;
            assert(r@ + replace_all(s@.skip(i as int), from@, to@) =~= replace_all(s@, from@, to@));
        } else {
            r.append(s.substring_char(i, i + 1));
            assert(s@.subrange(i as int, i + 1) =~= seq![rest[0]]);
            proof {
                lemma_skip_skip(s@, i as int, 1);
            }
            i = i + 1;
            assert(r@ + replace_all(s@.skip(i as int), from@, to@) =~= replace_all(s@, from@, to@));
        }
    }
    assert(s@.skip(n as int) =~= Seq::<char>::empty());
    assert(replace_all(s@.skip(n as int), from@, to@) =~= Seq::<char>::empty());
    assert(r@ =~= replace_all(s@, from@, to@));
    r
}


/// Splitting at a separator, as a fold from the left: the pieces completed so
/// far and the piece that is being read.
pub open spec fn split_fold(s: Seq<char>, sep: char) -> (Seq<Seq<char>>, Seq<char>)
    decreases s.len(),
{
    if s.len() == 0 {
        (seq![], seq![])
    } else {
        let (done, cur) = split_fold(s.drop_last(), sep);
        if s.last() == sep {
            (done.push(cur), seq![])
        } else {
            (done, cur.push(s.last()))
        }
    }
}

/// The pieces of `s` between occurrences of `sep` (what `str::split` yields
/// for a character): one more piece than there are separators.
pub open spec fn split_on(s: Seq<char>, sep: char) -> Seq<Seq<char>> {
    let (done, cur) = split_fold(s, sep);
    done.push(cur)
}

/// The pieces of `s` between occurrences of `sep`.
pub fn split_char(s: &str, sep: char) -> (r: Vec<String>)
    ensures
        views(r@) == split_on(s@, sep),
{
    let cs = chars_of(s);
    let n = cs.len();
    let mut pieces: Vec<String> = Vec::new();
    let mut start: usize = 0;
    let mut i: usize = 0;
    while i < n
        invariant
            n == cs@.len(),
            cs@ == s@,
            start <= i <= n,
            split_fold(s@.take(i as int), sep) == (views(pieces@), s@.subrange(start as int, i as int)),
        decreases n - i,
    {
        let c = cs[i];
        proof {
            assert(s@.take(i + 1).drop_last() =~= s@.take(i as int));
            assert(s@.take(i + 1).last() == c);
        }
        if c == sep {
            let t = s.substring_char(start, i).to_owned();
            let ghost before = pieces@;
            pieces.push(t);
            assert(views(pieces@) =~= views(before).push(t@));
            start = i + 1;
            assert(s@.subrange(start as int, (i + 1) as int) =~= seq![]);
        } else {
            assert(s@.subrange(start as int, (i + 1) as int) =~= s@.subrange(
                start as int,
                i as int,
            ).push(c));
        }
        i = i + 1;
    }
    assert(s@.take(n as int) =~= s@);
    let t = s.substring_char(start, n).to_owned();
    let ghost before = pieces@;
    pieces.push(t);
    assert(views(pieces@) =~= views(before).push(t@));
    pieces
}

pub proof fn lemma_decimal_digits(n: nat)
    ensures
        decimal(n).len() > 0,
        all_digits(decimal(n)),
        digits_value(decimal(n)) == n,
        decimal(n)[0] != '+',
    decreases n,
{
    if n < 10 {
        assert(digit_char(n) as nat == n + '0' as nat);
        assert(decimal(n).drop_last() =~= Seq::<char>::empty());
        assert(decimal(n).last() == digit_char(n));
        assert(digits_value(decimal(n)) == digits_value(decimal(n).drop_last()) * 10 + (decimal(n).last() as nat - '0' as nat) as nat);
    } else {
        lemma_decimal_digits(n / 10);
        let d = decimal(n);
        assert(d.drop_last() =~= decimal(n / 10));
        assert(digit_char(n % 10) as nat == n % 10 + '0' as nat);
        assert(d.last() == digit_char(n % 10));
        assert((n / 10) * 10 + n % 10 == n) by (nonlinear_arith);
        assert(digits_value(d) == digits_value(d.drop_last()) * 10 + (d.last() as nat - '0' as nat) as nat);
        assert forall|i: int| 0 <= i < d.len() implies is_digit(#[trigger] d[i]) by {
            if i < d.len() - 1 {
                assert(d[i] == decimal(n / 10)[i]);
            }
        }
        assert(d[0] == decimal(n / 10)[0]);
    }
}

/// A number written in decimal is read back as itself by `str::parse` for
/// any unsigned type that can hold it.
pub proof fn lemma_decimal_round_trip(n: nat, max: nat)
    requires
        n <= max,
    ensures
        parse_unsigned(decimal(n), max) == Some(n),
{
    lemma_decimal_digits(n);
    assert(unsigned_digits(decimal(n)) == decimal(n));
}

} // verus!
