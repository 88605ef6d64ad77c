use vstd::prelude::*;

verus! {

/// Builds a `String` holding exactly the given characters, in order.
///
/// Trusted: calls std's `FromIterator<char> for String` (`collect`); the
/// contract claims that the string holds the collected characters in order,
/// as the std documentation describes.
#[verifier::external_body]
pub(crate) fn string_from_chars(chars: &Vec<char>) -> (s: String)
    ensures
        s@ == chars@,
{
    chars.iter().collect()
}

pub open spec fn digit_char(d: nat) -> char {
    (d + 48) as char
}

/// Decimal digits of a natural number, most significant first, without leading zeros.
pub open spec fn nat_decimal(n: nat) -> Seq<char>
    decreases n,
{
    if n < 10 {
        seq![digit_char(n)]
    } else {
        nat_decimal(n / 10).push(digit_char(n % 10))
    }
}

/// Decimal text of an integer, as Rust's `to_string` writes it: a `-` before the
/// digits of a negative number.
pub open spec fn int_decimal(n: int) -> Seq<char> {
    if n < 0 {
        seq!['-'] + nat_decimal((-n) as nat)
    } else {
        nat_decimal(n as nat)
    }
}

fn u64_decimal_chars(n: u64) -> (res: Vec<char>)
    ensures
        res@ == nat_decimal(n as nat),
{
    let mut q: u64 = n;
    let mut acc: Vec<char> = Vec::new();
    while q >= 10
        invariant
            nat_decimal(n as nat) =~= nat_decimal(q as nat) + acc@,
        decreases q,
    {
        let d = q % 10;
        let c = ((d as u8) + 48) as char;
        assert(c == digit_char(d as nat));
        acc.insert(0, c);
        q = q / 10;
    }
    let c = ((q as u8) + 48) as char;
    acc.insert(0, c);
    acc
}

/// The decimal text of an `i64` (as `i64::to_string`).
pub fn i64_to_string(n: i64) -> (res: String)
    ensures
        res@ == int_decimal(n as int),
{
    if n < 0 {
        let m: u64 = ((-(n + 1)) as u64) + 1;
        let digits = u64_decimal_chars(m);
        let mut out: Vec<char> = Vec::new();
        out.push('-');
        let mut i: usize = 0;
        while i < digits.len()
            invariant
                i <= digits.len(),
                out@ =~= seq!['-'] + digits@.take(i as int),
            decreases digits.len() - i,
        {
            out.push(digits[i]);
            i = i + 1;
            assert(digits@.take(i as int) =~= digits@.take(i - 1).push(digits@[i - 1]));
        }
        assert(digits@.take(digits.len() as int) =~= digits@);
        string_from_chars(&out)
    } else {
        string_from_chars(&u64_decimal_chars(n as u64))
    }
}

/// The decimal text of a `usize` (as `usize::to_string`).
pub fn usize_to_string(n: usize) -> (res: String)
    ensures
        res@ == nat_decimal(n as nat),
{
    string_from_chars(&u64_decimal_chars(n as u64))
}

/// The characters of a string slice, in order.
pub fn str_chars(s: &str) -> (res: Vec<char>)
    ensures
        res@ == s@,
{
    let n = s.unicode_len();
    let mut out: Vec<char> = Vec::new();
    let mut i: usize = 0;
    while i < n
        invariant
            i <= n,
            n == s@.len(),
            out@ =~= s@.take(i as int),
        decreases n - i,
    {
        out.push(s.get_char(i));
        i = i + 1;
    }
    assert(s@.take(n as int) =~= s@);
    out
}

/// `s` with every trailing `c` removed (as `str::trim_end_matches` with a character).
pub open spec fn trim_end_char(s: Seq<char>, c: char) -> Seq<char>
    decreases s.len(),
{
    if s.len() > 0 && s.last() == c {
        trim_end_char(s.drop_last(), c)
    } else {
        s
    }
}

/// The part of `s` before its trailing `c` characters.
pub fn trim_end_matches_char(s: &str, c: char) -> (res: &str)
    ensures
        res@ == trim_end_char(s@, c),
{
    let n = s.unicode_len();
    let mut e: usize = n;
    assert(s@.subrange(0, n as int) =~= s@);
    while e > 0 && s.get_char(e - 1) == c
        invariant
            e <= n,
            n == s@.len(),
            trim_end_char(s@, c) == trim_end_char(s@.subrange(0, e as int), c),
        decreases e,
    {
        assert(s@.subrange(0, e as int).drop_last() =~= s@.subrange(0, e - 1));
        e = e - 1;
    }
    s.substring_char(0, e)
}

/// `s` with every non-overlapping occurrence of `pat`, found left to right,
/// replaced by `rep` (as `str::replace`, for a non-empty pattern).
pub open spec fn spec_replace(s: Seq<char>, pat: Seq<char>, rep: Seq<char>) -> Seq<char>
    decreases s.len(),
{
    if pat.len() == 0 || s.len() < pat.len() {
        s
    } else if s.subrange(0, pat.len() as int) == pat {
        rep + spec_replace(s.skip(pat.len() as int), pat, rep)
    } else {
        seq![s[0]] + spec_replace(s.skip(1), pat, rep)
    }
}

/// Replaces every non-overlapping occurrence of `pat`, left to right, by `rep`.
pub fn replace_all(s: &str, pat: &str, rep: &str) -> (res: String)
    requires
        pat@.len() > 0,
    ensures
        res@ == spec_replace(s@, pat@, rep@),
{
    let cs = str_chars(s);
    let ps = str_chars(pat);
    let rs = str_chars(rep);
    let n = cs.len();
    let p = ps.len();
    let mut out: Vec<char> = Vec::new();
    let mut i: usize = 0;
    assert(cs@.skip(0) =~= cs@);
    while i < n
        invariant
            i <= n,
            n == cs@.len(),
            p == ps@.len(),
            p > 0,
            spec_replace(cs@, ps@, rs@) =~= out@ + spec_replace(cs@.skip(i as int), ps@, rs@),
        decreases n - i,
    {
        let ghost rest = cs@.skip(i as int);
        let mut matched = false;
        if p <= n - i {
            let mut k: usize = 0;
            matched = true;
            while k < p
                invariant_except_break
                    matched,
                invariant
                    k <= p,
                    i + p <= n,
                    n == cs@.len(),
                    p == ps@.len(),
                    forall|j: int| 0 <= j < k ==> cs@[i + j] == ps@[j],
                ensures
                    matched <==> forall|j: int| 0 <= j < p ==> cs@[i + j] == ps@[j],
                decreases p - k,
            {
                if cs[i + k] != ps[k] {
                    matched = false;
                    break;
                }
                k = k + 1;
            }
        }
        if matched {
            assert(rest.subrange(0, p as int) =~= ps@);
            let mut k: usize = 0;
            let ghost before = out@;
            while k < rs.len()
                invariant
                    k <= rs.len(),
                    out@ =~= before + rs@.take(k as int),
                decreases rs.len() - k,
            {
                out.push(rs[k]);
                k = k + 1;
            }
            assert(rs@.take(rs.len() as int) =~= rs@);
            assert(rest.skip(p as int) =~= cs@.skip(i + p));
            i = i + p;
        } else {
            if p <= n - i {
                assert(rest.subrange(0, p as int) != ps@) by {
                    let j = choose|j: int| 0 <= j < p && cs@[i + j] != ps@[j];
                    assert(rest.subrange(0, p as int)[j] == cs@[i + j]);
                }
            } else {
                assert(spec_replace(cs@.skip(i + 1), ps@, rs@) == cs@.skip(i + 1));
                assert(rest =~= seq![cs@[i as int]] + cs@.skip(i + 1));
            }
            assert(rest.skip(1) =~= cs@.skip(i + 1));
            out.push(cs[i]);
            i = i + 1;
        }
    }
    string_from_chars(&out)
}

/// `n` occurs in `h` as a run of consecutive characters.
pub open spec fn has_substring(h: Seq<char>, n: Seq<char>) -> bool {
    exists|i: int| 0 <= i && i + n.len() <= h.len() && #[trigger] h.subrange(i, i + n.len()) == n
}

/// Whether `n` occurs in `h` (as `str::contains` with a string pattern).
pub fn str_contains(h: &str, n: &str) -> (res: bool)
    ensures
        res == has_substring(h@, n@),
{
    let hs = str_chars(h);
    let ns = str_chars(n);
    let hl = hs.len();
    let nl = ns.len();
    if nl > hl {
        assert forall|i: int| 0 <= i && i + nl <= hl implies #[trigger] h@.subrange(i, i + nl) != n@ by {}
        return false;
    }
    let mut i: usize = 0;
    while i <= hl - nl
        invariant
            nl <= hl,
            hl == hs@.len(),
            nl == ns@.len(),
            hs@ == h@,
            ns@ == n@,
            forall|j: int| 0 <= j < i ==> #[trigger] h@.subrange(j, j + nl) != n@,
        decreases hl - nl + 1 - i,
    {
        let mut k: usize = 0;
        let mut same = true;
        while k < nl
            invariant_except_break
                same,
            invariant
                k <= nl,
                i + nl <= hl,
                hl == hs@.len(),
                nl == ns@.len(),
                forall|j: int| 0 <= j < k ==> hs@[i + j] == ns@[j],
            ensures
                same <==> forall|j: int| 0 <= j < nl ==> hs@[i + j] == ns@[j],
            decreases nl - k,
        {
            if hs[i + k] != ns[k] {
                same = false;
                break;
            }
            k = k + 1;
        }
        if same {
            assert(h@.subrange(i as int, i + nl) =~= n@);
            return true;
        }
        assert(h@.subrange(i as int, i + nl) != n@) by {
            let j = choose|j: int| 0 <= j < nl && hs@[i + j] != ns@[j];
            assert(h@.subrange(i as int, i + nl)[j] == hs@[i + j]);
        }
        i = i + 1;
    }
    false
}

/// A character with the Unicode `White_Space` property (PropList.txt), which is
/// what `char::is_whitespace` and `str::trim` go by.
pub open spec fn is_white_space(c: char) -> bool {
    let x = c as int;
    ||| 0x09 <= x <= 0x0D
    ||| x == 0x20
    ||| x == 0x85
    ||| x == 0xA0
    ||| x == 0x1680
    ||| 0x2000 <= x <= 0x200A
    ||| x == 0x2028
    ||| x == 0x2029
    ||| x == 0x202F
    ||| x == 0x205F
    ||| x == 0x3000
}

/// `s` without its leading white space.
pub open spec fn trim_start_white(s: Seq<char>) -> Seq<char>
    decreases s.len(),
{
    if s.len() > 0 && is_white_space(s[0]) {
        trim_start_white(s.skip(1))
    } else {
        s
    }
}

/// `s` without its trailing white space.
pub open spec fn trim_end_white(s: Seq<char>) -> Seq<char>
    decreases s.len(),
{
    if s.len() > 0 && is_white_space(s.last()) {
        trim_end_white(s.drop_last())
    } else {
        s
    }
}

/// `s` without leading and trailing white space.
pub open spec fn spec_trim(s: Seq<char>) -> Seq<char> {
    trim_end_white(trim_start_white(s))
}

/// Removes leading and trailing white space.
///
/// Trusted: calls std's `str::trim`, which removes leading and trailing characters
/// with the Unicode `White_Space` property, as its documentation says.
#[verifier::external_body]
pub(crate) fn trim_str(s: &str) -> (res: &str)
    ensures
        res@ == spec_trim(s@),
{
    s.trim()
}

pub proof fn lemma_nat_decimal_shape(n: nat)
    ensures
        nat_decimal(n).len() >= 1,
        n < 10 <==> nat_decimal(n).len() == 1,
        forall|i: int| 0 <= i < nat_decimal(n).len() ==> '0' <= #[trigger] nat_decimal(n)[i] <= '9',
        nat_decimal(n).last() == digit_char(n % 10),
    decreases n,
{
    if n >= 10 {
        lemma_nat_decimal_shape(n / 10);
    }
}

/// Different integers have different decimal texts.
pub proof fn lemma_int_decimal_injective(a: int, b: int)
    requires
        int_decimal(a) == int_decimal(b),
    ensures
        a == b,
    decreases (if a < 0 { -a } else { a }),
{
    if a < 0 && b < 0 {
        assert(nat_decimal((-a) as nat) =~= int_decimal(a).skip(1));
        assert(nat_decimal((-b) as nat) =~= int_decimal(b).skip(1));
        lemma_nat_decimal_injective((-a) as nat, (-b) as nat);
    } else if a >= 0 && b >= 0 {
        lemma_nat_decimal_injective(a as nat, b as nat);
    } else if a < 0 {
        lemma_nat_decimal_shape(b as nat);
        assert(int_decimal(a)[0] == '-');
        assert(int_decimal(b)[0] == nat_decimal(b as nat)[0]);
    } else {
        lemma_nat_decimal_shape(a as nat);
        assert(int_decimal(b)[0] == '-');
        assert(int_decimal(a)[0] == nat_decimal(a as nat)[0]);
    }
}

pub proof fn lemma_nat_decimal_injective(a: nat, b: nat)
    requires
        nat_decimal(a) == nat_decimal(b),
    ensures
        a == b,
    decreases a,
{
    lemma_nat_decimal_shape(a);
    lemma_nat_decimal_shape(b);
    if a < 10 {
        assert(b < 10);
        assert(nat_decimal(a)[0] == digit_char(a));
        assert(nat_decimal(b)[0] == digit_char(b));
    } else {
        assert(b >= 10);
        assert(a % 10 == b % 10);
        assert(nat_decimal(a / 10) =~= nat_decimal(a).drop_last());
        assert(nat_decimal(b / 10) =~= nat_decimal(b).drop_last());
        lemma_nat_decimal_injective(a / 10, b / 10);
    }
}

} // verus!
