use vstd::prelude::*;

verus! {

/// A weight algebra: an associative, possibly noncommutative multiplication
/// with identity `one` and absorbing element `zero`. Multiplication may fail
/// (for instance on overflow); `spec_times` is `None` exactly then.
pub trait Semiring: Sized + Copy {
    spec fn spec_one() -> Self;

    spec fn spec_zero() -> Self;

    spec fn spec_times(a: Self, b: Self) -> Option<Self>;

    fn one() -> (r: Self)
        ensures
            r == Self::spec_one(),
    ;

    fn zero() -> (r: Self)
        ensures
            r == Self::spec_zero(),
    ;

    fn is_zero(&self) -> (r: bool)
        ensures
            r == (*self == Self::spec_zero()),
    ;

    /// `self ⊗ other`, or `None` where the arithmetic fails.
    fn times(&self, other: &Self) -> (r: Option<Self>)
        ensures
            r == Self::spec_times(*self, *other),
    ;

    spec fn spec_parse_text(s: Seq<char>) -> Option<Self>;

    /// Reads a weight from its text form.
    fn parse_text(s: &str) -> (r: Option<Self>)
        ensures
            r == Self::spec_parse_text(s@),
    ;
}

pub open spec fn spec_is_digit(c: char) -> bool {
    '0' <= c && c <= '9'
}

/// The number that the decimal digits `s` write.
pub open spec fn spec_decimal(s: Seq<char>) -> int
    decreases s.len(),
{
    if s.len() == 0 {
        0
    } else {
        spec_decimal(s.drop_last()) * 10 + ((s.last() as u32) - ('0' as u32))
    }
}

/// A non-empty run of decimal digits whose value fits in `u64`.
pub open spec fn spec_parse_u64(s: Seq<char>) -> Option<u64> {
    if s.len() > 0 && (forall|i: int| 0 <= i < s.len() ==> spec_is_digit(#[trigger] s[i]))
        && spec_decimal(s) <= u64::MAX {
        Some(spec_decimal(s) as u64)
    } else {
        None
    }
}

/// More digits never make a smaller number.
proof fn lemma_decimal_grows(s: Seq<char>, k: int)
    requires
        0 <= k <= s.len(),
        forall|i: int| 0 <= i < s.len() ==> spec_is_digit(#[trigger] s[i]),
    ensures
        spec_decimal(s.take(k)) <= spec_decimal(s),
        0 <= spec_decimal(s.take(k)),
    decreases s.len() - k,
{
    if k < s.len() {
        lemma_decimal_grows(s, k + 1);
        let t = s.take(k + 1);
        assert(t.drop_last() =~= s.take(k));
        assert(spec_is_digit(t.last()));
    } else {
        assert(s.take(k) =~= s);
        lemma_decimal_nonneg(s);
    }
}

proof fn lemma_decimal_nonneg(s: Seq<char>)
    requires
        forall|i: int| 0 <= i < s.len() ==> spec_is_digit(#[trigger] s[i]),
    ensures
        0 <= spec_decimal(s),
    decreases s.len(),
{
    if s.len() > 0 {
        let r = s.drop_last();
        assert forall|i: int| 0 <= i < r.len() implies spec_is_digit(#[trigger] r[i]) by {
            assert(r[i] == s[i]);
        }
        lemma_decimal_nonneg(r);
        assert(spec_is_digit(s[s.len() - 1]));
    }
}

/// Reads a non-empty run of decimal digits that fits in `u64`.
pub fn parse_u64(s: &str) -> (r: Option<u64>)
    ensures
        r == spec_parse_u64(s@),
{
    let n = s.unicode_len();
    if n == 0 {
        return None;
    }
    let mut acc: u64 = 0;
    let mut i: usize = 0;
    while i < n
        invariant
            n == s@.len(),
            i <= n,
            acc == spec_decimal(s@.take(i as int)),
            forall|j: int| 0 <= j < i ==> spec_is_digit(#[trigger] s@[j]),
        decreases n - i,
    {
        let c = s.get_char(i);
        proof {
            assert(s@.take(i as int + 1).drop_last() =~= s@.take(i as int));
            assert(s@.take(i as int + 1).last() == c);
        }
        if c < '0' || c > '9' {
            return None;
        }
        let d = (c as u32 - '0' as u32) as u64;
        let next = match acc.checked_mul(10) {
            Some(m) => m.checked_add(d),
            None => None,
        };
        match next {
            Some(v) => {
                acc = v;
            },
            None => {
                proof {
                    if forall|j: int| 0 <= j < s@.len() ==> spec_is_digit(#[trigger] s@[j]) {
                        lemma_decimal_grows(s@, i as int + 1);
                    }
                }
                return None;
            },
        }
        i = i + 1;
    }
    proof {
        assert(s@.take(n as int) =~= s@);
    }
    Some(acc)
}

/// The counting semiring over `u64`: `⊗` is multiplication, `one` is 1 and
/// `zero` is 0. A product that does not fit in `u64` is an arithmetic error.
#[derive(Clone, Copy, PartialEq, Eq, Structural, Debug, Hash)]
pub struct IntegerWeight {
    pub value: u64,
}

impl IntegerWeight {
    pub fn new(value: u64) -> (r: IntegerWeight)
        ensures
            r.value == value,
    {
        IntegerWeight { value }
    }
}

impl Semiring for IntegerWeight {
    open spec fn spec_one() -> Self {
        IntegerWeight { value: 1 }
    }

    open spec fn spec_zero() -> Self {
        IntegerWeight { value: 0 }
    }

    open spec fn spec_times(a: Self, b: Self) -> Option<Self> {
        if a.value * b.value <= u64::MAX {
            Some(IntegerWeight { value: (a.value * b.value) as u64 })
        } else {
            None
        }
    }

    fn one() -> (r: Self) {
        IntegerWeight { value: 1 }
    }

    fn zero() -> (r: Self) {
        IntegerWeight { value: 0 }
    }

    fn is_zero(&self) -> (r: bool) {
        self.value == 0
    }

    fn times(&self, other: &Self) -> (r: Option<Self>) {
        match self.value.checked_mul(other.value) {
            Some(v) => Some(IntegerWeight { value: v }),
            None => None,
        }
    }

    /// Decimal digits.
    open spec fn spec_parse_text(s: Seq<char>) -> Option<Self> {
        match spec_parse_u64(s) {
            Some(v) => Some(IntegerWeight { value: v }),
            None => None,
        }
    }

    fn parse_text(s: &str) -> (r: Option<Self>) {
        match parse_u64(s) {
            Some(v) => Some(IntegerWeight { value: v }),
            None => None,
        }
    }
}

/// The tropical semiring over `u64` extended with infinity: `⊗` is addition,
/// `one` is 0 and `zero` is infinity (`None`). A finite sum that does not fit
/// in `u64` is an arithmetic error.
#[derive(Clone, Copy, PartialEq, Eq, Structural, Debug, Hash)]
pub struct TropicalWeight {
    pub value: Option<u64>,
}

impl TropicalWeight {
    pub fn new(value: u64) -> (r: TropicalWeight)
        ensures
            r.value == Some(value),
    {
        TropicalWeight { value: Some(value) }
    }

    pub fn infinity() -> (r: TropicalWeight)
        ensures
            r.value.is_none(),
    {
        TropicalWeight { value: None }
    }
}

impl Semiring for TropicalWeight {
    open spec fn spec_one() -> Self {
        TropicalWeight { value: Some(0) }
    }

    open spec fn spec_zero() -> Self {
        TropicalWeight { value: None }
    }

    open spec fn spec_times(a: Self, b: Self) -> Option<Self> {
        match (a.value, b.value) {
            (Some(x), Some(y)) => if x + y <= u64::MAX {
                Some(TropicalWeight { value: Some((x + y) as u64) })
            } else {
                None
            },
            _ => Some(TropicalWeight { value: None }),
        }
    }

    fn one() -> (r: Self) {
        TropicalWeight { value: Some(0) }
    }

    fn zero() -> (r: Self) {
        TropicalWeight { value: None }
    }

    fn is_zero(&self) -> (r: bool) {
        self.value.is_none()
    }

    fn times(&self, other: &Self) -> (r: Option<Self>) {
        match (self.value, other.value) {
            (Some(x), Some(y)) => match x.checked_add(y) {
                Some(v) => Some(TropicalWeight { value: Some(v) }),
                None => None,
            },
            _ => Some(TropicalWeight { value: None }),
        }
    }

    /// Decimal digits for a finite weight; infinity has no text form here.
    open spec fn spec_parse_text(s: Seq<char>) -> Option<Self> {
        match spec_parse_u64(s) {
            Some(v) => Some(TropicalWeight { value: Some(v) }),
            None => None,
        }
    }

    fn parse_text(s: &str) -> (r: Option<Self>) {
        match parse_u64(s) {
            Some(v) => Some(TropicalWeight { value: Some(v) }),
            None => None,
        }
    }
}

} // verus!
