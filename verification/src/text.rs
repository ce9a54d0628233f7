//! Character-level text helpers: whitespace trimming and decimal rendering,
//! each specified over `Seq<char>`.
use vstd::prelude::*;

verus! {

/// The characters with the Unicode `White_Space` property, as
/// `str::trim` understands them.
pub open spec fn is_space_char(c: char) -> bool {
    let u = c as u32;
    (0x09 <= u && u <= 0x0D) || u == 0x20 || u == 0x85 || u == 0xA0 || u == 0x1680 || (0x2000
        <= u && u <= 0x200A) || u == 0x2028 || u == 0x2029 || u == 0x202F || u == 0x205F || u
        == 0x3000
}

/// Executable test for `is_space_char`.
pub fn is_space(c: char) -> (r: bool)
    ensures
        r == is_space_char(c),
{
    let u = c as u32;
    (0x09 <= u && u <= 0x0D) || u == 0x20 || u == 0x85 || u == 0xA0 || u == 0x1680 || (0x2000
        <= u && u <= 0x200A) || u == 0x2028 || u == 0x2029 || u == 0x202F || u == 0x205F || u
        == 0x3000
}

/// `s` with its leading whitespace removed.
pub open spec fn trim_front(s: Seq<char>) -> Seq<char>
    decreases s.len(),
{
    if s.len() > 0 && is_space_char(s[0]) {
        trim_front(s.drop_first())
    } else {
        s
    }
}

/// `s` with its trailing whitespace removed.
pub open spec fn trim_back(s: Seq<char>) -> Seq<char>
    decreases s.len(),
{
    if s.len() > 0 && is_space_char(s.last()) {
        trim_back(s.drop_last())
    } else {
        s
    }
}

/// What `str::trim` returns: the sequence with whitespace removed at
/// both ends.
pub open spec fn trim_spec(s: Seq<char>) -> Seq<char> {
    trim_back(trim_front(s))
}

proof fn lemma_trim_front_subrange(s: Seq<char>, lo: int)
    requires
        0 <= lo <= s.len(),
        forall|k: int| 0 <= k < lo ==> is_space_char(s[k]),
        lo < s.len() ==> !is_space_char(s[lo]),
    ensures
        trim_front(s) == s.subrange(lo, s.len() as int),
    decreases lo,
{
    if lo == 0 {
        assert(trim_front(s) =~= s.subrange(0, s.len() as int));
    } else {
        let t = s.drop_first();
        assert(t =~= s.subrange(1, s.len() as int));
        lemma_trim_front_subrange(t, lo - 1);
        assert(t.subrange(lo - 1, t.len() as int) =~= s.subrange(lo, s.len() as int));
    }
}

proof fn lemma_trim_back_subrange(s: Seq<char>, hi: int)
    requires
        0 <= hi <= s.len(),
        forall|k: int| hi <= k < s.len() ==> is_space_char(s[k]),
        hi > 0 ==> !is_space_char(s[hi - 1]),
    ensures
        trim_back(s) == s.subrange(0, hi),
    decreases s.len() - hi,
{
    if hi == s.len() {
        assert(trim_back(s) =~= s.subrange(0, hi));
    } else {
        let t = s.drop_last();
        assert(t =~= s.subrange(0, s.len() - 1));
        lemma_trim_back_subrange(t, hi);
        assert(t.subrange(0, hi) =~= s.subrange(0, hi));
    }
}

/// `str::trim`, written out: scan past whitespace from both ends.
pub fn trim(s: &str) -> (r: String)
    ensures
        r@ == trim_spec(s@),
{
    let n = s.unicode_len();
    let mut lo: usize = 0;
    while lo < n && is_space(s.get_char(lo))
        invariant
            n == s@.len(),
            0 <= lo <= n,
            forall|k: int| 0 <= k < lo ==> is_space_char(s@[k]),
        decreases n - lo,
    {
        lo = lo + 1;
    }
    let mut hi: usize = n;
    while hi > lo && is_space(s.get_char(hi - 1))
        invariant
            n == s@.len(),
            0 <= lo <= hi <= n,
            forall|k: int| 0 <= k < lo ==> is_space_char(s@[k]),
            lo < n ==> !is_space_char(s@[lo as int]),
            forall|k: int| hi <= k < n ==> is_space_char(s@[k]),
        decreases hi,
    {
        hi = hi - 1;
    }
    let sub = s.substring_char(lo, hi);
    proof {
        lemma_trim_front_subrange(s@, lo as int);
        let f = s@.subrange(lo as int, s@.len() as int);
        if hi == lo {
            lemma_trim_back_subrange(f, 0);
        } else {
            lemma_trim_back_subrange(f, hi - lo);
        }
        assert(f.subrange(0, hi - lo) =~= s@.subrange(lo as int, hi as int));
    }
    String::from_str(sub)
}

/// The digit characters, indexed by value.
pub open spec fn digit_char(d: int) -> char {
    "0123456789"@[d]
}

/// One-character string slice holding the digit `d`.
pub fn digit_str(d: usize) -> (r: &'static str)
    requires
        d < 10,
    ensures
        r@ =~= seq![digit_char(d as int)],
{
    let digits = "0123456789";
    proof {
        reveal_strlit("0123456789");
    }
    digits.substring_char(d, d + 1)
}

/// Decimal rendering of `n`, most significant digit first, no leading
/// zeros (a lone zero for 0).
pub open spec fn dec_rep(n: nat) -> Seq<char>
    decreases n,
{
    if n < 10 {
        seq![digit_char(n as int)]
    } else {
        dec_rep(n / 10).push(digit_char((n % 10) as int))
    }
}

/// Decimal rendering of a port-sized number.
pub fn u16_to_dec(n: u16) -> (r: String)
    ensures
        r@ == dec_rep(n as nat),
    decreases n,
{
    if n < 10 {
        let r = String::from_str(digit_str(n as usize));
        proof {
            assert(r@ =~= dec_rep(n as nat));
        }
        r
    } else {
        let mut r = u16_to_dec(n / 10);
        r.append(digit_str((n % 10) as usize));
        proof {
            assert(r@ =~= dec_rep(n as nat));
        }
        r
    }
}

/// Two-digit zero-padded decimal rendering, for clock fields.
pub open spec fn two_dec(n: nat) -> Seq<char>
    recommends
        n < 100,
{
    seq![digit_char((n / 10) as int), digit_char((n % 10) as int)]
}

/// Two-digit zero-padded rendering of a clock field.
pub fn u8_to_two_dec(n: u8) -> (r: String)
    requires
        n < 100,
    ensures
        r@ == two_dec(n as nat),
{
    let mut r = String::from_str(digit_str((n / 10) as usize));
    r.append(digit_str((n % 10) as usize));
    proof {
        assert(r@ =~= two_dec(n as nat));
    }
    r
}

} // verus!
