//! A ten-digit number, its transformed digits, the static-balance and
//! element-count filters, and the two scores.
use vstd::prelude::*;

use crate::config::AnalyzeConfig;
use crate::element::{digit_to_element, element_of, get_element_roles, relation, relation_of, roles, Element};

verus! {

/// Every entry is a decimal digit.
pub open spec fn all_digits(s: Seq<u8>) -> bool {
    forall|i: int| 0 <= i < s.len() ==> #[trigger] s[i] < 10
}

/// The transformed form: every 0 becomes 5, every other digit stays.
pub open spec fn transform(s: Seq<u8>) -> Seq<u8> {
    s.map_values(|d: u8| if d == 0 { 5u8 } else { d })
}

/// How many entries are even.
pub open spec fn even_count(s: Seq<u8>) -> nat
    decreases s.len(),
{
    if s.len() == 0 {
        0
    } else {
        even_count(s.drop_last()) + if s.last() % 2 == 0 { 1nat } else { 0nat }
    }
}

/// The sum of the entries.
pub open spec fn digit_sum(s: Seq<u8>) -> nat
    decreases s.len(),
{
    if s.len() == 0 {
        0
    } else {
        digit_sum(s.drop_last()) + s.last() as nat
    }
}

/// Four or five even digits, and neither half sums to a multiple of 8.
pub open spec fn static_balance(s: Seq<u8>) -> bool {
    &&& (even_count(s) == 4 || even_count(s) == 5)
    &&& digit_sum(s.subrange(0, 5)) % 8 != 0
    &&& digit_sum(s.subrange(5, 10)) % 8 != 0
}

/// How many digits of `t` have element `e`.
pub open spec fn count_of(t: Seq<u8>, e: Element) -> nat
    decreases t.len(),
{
    if t.len() == 0 {
        0
    } else {
        count_of(t.drop_last(), e) + if element_of(t.last()) == e { 1nat } else { 0nat }
    }
}

/// The element at position `k` of the order Water, Earth, Wood, Metal, Fire.
pub open spec fn element_at(k: int) -> Element {
    if k == 0 {
        Element::Thuy
    } else if k == 1 {
        Element::Tho
    } else if k == 2 {
        Element::Moc
    } else if k == 3 {
        Element::Kim
    } else {
        Element::Hoa
    }
}

/// `c` holds the count of each element among `t`, in element order.
pub open spec fn are_counts_of(c: Seq<usize>, t: Seq<u8>) -> bool {
    &&& c.len() == 5
    &&& forall|k: int| 0 <= k < 5 ==> #[trigger] c[k] == count_of(t, element_at(k))
}

/// Every element occurs exactly twice.
pub open spec fn absolute_balance(t: Seq<u8>) -> bool {
    forall|k: int| 0 <= k < 5 ==> #[trigger] count_of(t, element_at(k)) == 2
}

/// Sum of the relation of each consecutive pair of digits, in order.
pub open spec fn adjacency(t: Seq<u8>) -> int
    decreases t.len(),
{
    if t.len() < 2 {
        0
    } else {
        adjacency(t.drop_last()) + relation(element_of(t[t.len() - 2]), element_of(t.last()))
    }
}

/// The weight of an element by the role it takes relative to the user's element.
pub open spec fn weight(e: Element, cfg: AnalyzeConfig) -> int {
    let (sinh, cung, bi_khac, khac, sinh_xuat) = roles(cfg.user_menh);
    if e == sinh {
        cfg.score_sinh as int
    } else if e == cung {
        cfg.score_cung as int
    } else if e == khac {
        cfg.score_khac as int
    } else if e == sinh_xuat {
        cfg.score_sinh_xuat as int
    } else {
        cfg.score_bi_khac as int
    }
}

/// Sum of the weights of the digits' elements.
pub open spec fn compatibility(t: Seq<u8>, cfg: AnalyzeConfig) -> int
    decreases t.len(),
{
    if t.len() == 0 {
        0
    } else {
        compatibility(t.drop_last(), cfg) + weight(element_of(t.last()), cfg)
    }
}

/// A number of exactly ten decimal digits, kept as given.
#[derive(Debug, Clone, Copy)]
pub struct PhoneNumber {
    pub original_digits: [u8; 10],
}

impl PhoneNumber {
    pub open spec fn digits(&self) -> Seq<u8> {
        self.original_digits@
    }

    pub open spec fn wf(&self) -> bool {
        all_digits(self.digits())
    }

    /// Builds a number from exactly ten digits; `None` otherwise.
    pub fn from_digits(slice: &[u8]) -> (r: Option<Self>)
        ensures
            r is Some <==> slice@.len() == 10 && all_digits(slice@),
            r matches Some(p) ==> p.digits() == slice@ && p.wf(),
    {
        if slice.len() != 10 {
            return None;
        }
        let mut arr: [u8; 10] = [0; 10];
        let mut i: usize = 0;
        while i < 10
            invariant
                slice@.len() == 10,
                0 <= i <= 10,
                forall|k: int| 0 <= k < i ==> arr@[k] == slice@[k] && slice@[k] < 10,
            decreases 10 - i,
        {
            if slice[i] >= 10 {
                return None;
            }
            arr[i] = slice[i];
            i = i + 1;
        }
        let p = PhoneNumber { original_digits: arr };
        assert(p.digits() =~= slice@);
        Some(p)
    }

    /// The digits with every 0 replaced by 5.
    pub fn get_transformed_digits(&self) -> (r: [u8; 10])
        requires
            self.wf(),
        ensures
            r@ == transform(self.digits()),
            all_digits(r@),
    {
        let mut t = self.original_digits;
        let mut i: usize = 0;
        while i < 10
            invariant
                0 <= i <= 10,
                self.wf(),
                forall|k: int| 0 <= k < i ==> t@[k] == transform(self.digits())[k],
                forall|k: int| i <= k < 10 ==> t@[k] == self.digits()[k],
            decreases 10 - i,
        {
            if t[i] == 0 {
                t[i] = 5;
            }
            i = i + 1;
        }
        assert(t@ =~= transform(self.digits()));
        t
    }

    /// The static-balance check on the original digits.
    pub fn has_static_balance(&self) -> (r: bool)
        requires
            self.wf(),
        ensures
            r == static_balance(self.digits()),
    {
        let ghost d = self.digits();
        let mut evens: usize = 0;
        let mut i: usize = 0;
        while i < 10
            invariant
                0 <= i <= 10,
                self.wf(),
                d == self.digits(),
                evens == even_count(d.subrange(0, i as int)),
                evens <= i,
            decreases 10 - i,
        {
            assert(d.subrange(0, i + 1).drop_last() =~= d.subrange(0, i as int));
            if self.original_digits[i] % 2 == 0 {
                evens = evens + 1;
            }
            i = i + 1;
        }
        assert(d.subrange(0, 10) =~= d);
        if !(evens == 4 || evens == 5) {
            return false;
        }
        let first = half_sum(&self.original_digits, 0);
        let last = half_sum(&self.original_digits, 5);
        if first % 8 == 0 || last % 8 == 0 {
            return false;
        }
        true
    }

    /// The checks of the compatibility filter, in order; the first that
    /// fails is reported.
    pub fn compatibility_verdict(&self, t_digits: &[u8; 10], cfg: &AnalyzeConfig) -> (r: Result<
        (),
        CompatFailure,
    >)
        requires
            all_digits(t_digits@),
        ensures
            r == compat_verdict(t_digits@, *cfg),
    {
        let counts = element_counts(t_digits);
        let mut k: usize = 0;
        if cfg.toggle_completeness {
            while k < 5
                invariant
                    0 <= k <= 5,
                    cfg.toggle_completeness,
                    are_counts_of(counts@, t_digits@),
                    forall|j: int| 0 <= j < k ==> #[trigger] count_of(t_digits@, element_at(j)) != 0,
                decreases 5 - k,
            {
                if counts[k] == 0 {
                    assert(count_of(t_digits@, element_at(k as int)) == 0);
                    return Err(CompatFailure::Incomplete);
                }
                k = k + 1;
            }
        }
        k = 0;
        while k < 5
            invariant
                0 <= k <= 5,
                are_counts_of(counts@, t_digits@),
                forall|j: int| 0 <= j < k ==> #[trigger] count_of(t_digits@, element_at(j)) <= cfg.filter_any_max,
                !(cfg.toggle_completeness && exists|j: int| 0 <= j < 5 && #[trigger] count_of(t_digits@, element_at(j)) == 0),
            decreases 5 - k,
        {
            if counts[k] > cfg.filter_any_max {
                assert(count_of(t_digits@, element_at(k as int)) > cfg.filter_any_max);
                return Err(CompatFailure::Dominance);
            }
            k = k + 1;
        }
        let (sinh, cung, bi_khac, khac, _) = get_element_roles(cfg.user_menh);
        let n_sinh = counts[sinh.index()];
        let n_cung = counts[cung.index()];
        if counts[khac.index()] > cfg.filter_khac_max {
            return Err(CompatFailure::TooManyKhac);
        }
        if counts[bi_khac.index()] > cfg.filter_bi_khac_max {
            return Err(CompatFailure::TooManyBiKhac);
        }
        if n_sinh < cfg.filter_sinh_min {
            return Err(CompatFailure::TooFewSinh);
        }
        if n_cung < cfg.filter_cung_min {
            return Err(CompatFailure::TooFewCung);
        }
        if n_sinh + n_cung > cfg.filter_tong_max {
            return Err(CompatFailure::TooManySinhCung);
        }
        Ok(())
    }

    /// Whether the transformed digits pass all seven compatibility checks.
    pub fn passes_compatibility_filters(&self, t_digits: &[u8; 10], cfg: &AnalyzeConfig) -> (r:
        bool)
        requires
            all_digits(t_digits@),
        ensures
            r == (compat_verdict(t_digits@, *cfg) is Ok),
    {
        self.compatibility_verdict(t_digits, cfg).is_ok()
    }

    /// Whether each element occurs exactly twice among the transformed digits.
    pub fn has_absolute_balance(&self, t_digits: &[u8; 10]) -> (r: bool)
        requires
            all_digits(t_digits@),
        ensures
            r == absolute_balance(t_digits@),
    {
        let counts = element_counts(t_digits);
        let mut k: usize = 0;
        while k < 5
            invariant
                0 <= k <= 5,
                are_counts_of(counts@, t_digits@),
                forall|j: int| 0 <= j < k ==> count_of(t_digits@, element_at(j)) == 2,
            decreases 5 - k,
        {
            if counts[k] != 2 {
                return false;
            }
            k = k + 1;
        }
        true
    }

    /// The adjacency score of the transformed digits.
    pub fn calculate_adjacent_score(&self, t_digits: &[u8; 10]) -> (r: i32)
        requires
            all_digits(t_digits@),
        ensures
            r == adjacency(t_digits@),
            -9 <= r <= 9,
    {
        let ghost t = t_digits@;
        let mut sum: i32 = 0;
        let mut i: usize = 1;
        while i < 10
            invariant
                1 <= i <= 10,
                t == t_digits@,
                all_digits(t),
                sum == adjacency(t.subrange(0, i as int)),
                -(i as int - 1) <= sum <= i - 1,
            decreases 10 - i,
        {
            assert(t.subrange(0, i + 1).drop_last() =~= t.subrange(0, i as int));
            let rel = relation_of(digit_to_element(t_digits[i - 1]), digit_to_element(t_digits[i]));
            sum = sum + rel as i32;
            i = i + 1;
        }
        assert(t.subrange(0, 10) =~= t);
        sum
    }

    /// The weighted compatibility score of the transformed digits.
    pub fn calculate_compatibility_score(&self, t_digits: &[u8; 10], cfg: &AnalyzeConfig) -> (r:
        i64)
        requires
            all_digits(t_digits@),
        ensures
            r == compatibility(t_digits@, *cfg),
            -10 * 0x8000_0000 <= r <= 10 * 0x8000_0000,
    {
        let ghost t = t_digits@;
        let (sinh, cung, bi_khac, khac, sinh_xuat) = get_element_roles(cfg.user_menh);
        let mut sum: i64 = 0;
        let mut i: usize = 0;
        while i < 10
            invariant
                0 <= i <= 10,
                t == t_digits@,
                all_digits(t),
                (sinh, cung, bi_khac, khac, sinh_xuat) == roles(cfg.user_menh),
                sum == compatibility(t.subrange(0, i as int), *cfg),
                -(i as int) * 0x8000_0000 <= sum <= (i as int) * 0x8000_0000,
            decreases 10 - i,
        {
            assert(t.subrange(0, i + 1).drop_last() =~= t.subrange(0, i as int));
            let el = digit_to_element(t_digits[i]);
            let w: i32 = if el == sinh {
                cfg.score_sinh
            } else if el == cung {
                cfg.score_cung
            } else if el == khac {
                cfg.score_khac
            } else if el == sinh_xuat {
                cfg.score_sinh_xuat
            } else {
                cfg.score_bi_khac
            };
            sum = sum + w as i64;
            i = i + 1;
        }
        assert(t.subrange(0, 10) =~= t);
        sum
    }
}

/// Sum of the five digits starting at `from`.
fn half_sum(d: &[u8; 10], from: usize) -> (r: u32)
    requires
        from == 0 || from == 5,
        all_digits(d@),
    ensures
        r == digit_sum(d@.subrange(from as int, from + 5)),
{
    let ghost s = d@.subrange(from as int, from + 5);
    let mut sum: u32 = 0;
    let mut i: usize = 0;
    while i < 5
        invariant
            0 <= i <= 5,
            from == 0 || from == 5,
            all_digits(d@),
            s == d@.subrange(from as int, from + 5),
            sum == digit_sum(s.subrange(0, i as int)),
            sum <= 9 * i,
        decreases 5 - i,
    {
        assert(s.subrange(0, i + 1).drop_last() =~= s.subrange(0, i as int));
        sum = sum + d[from + i] as u32;
        i = i + 1;
    }
    assert(s.subrange(0, 5) =~= s);
    sum
}

/// Counts each element among the digits, in element order.
fn element_counts(t: &[u8; 10]) -> (r: Vec<usize>)
    requires
        all_digits(t@),
    ensures
        are_counts_of(r@, t@),
        forall|k: int| 0 <= k < 5 ==> #[trigger] r@[k] <= 10,
{
    let mut counts: Vec<usize> = vec![0, 0, 0, 0, 0];
    let mut i: usize = 0;
    while i < 10
        invariant
            0 <= i <= 10,
            all_digits(t@),
            counts@.len() == 5,
            forall|k: int|
                0 <= k < 5 ==> #[trigger] counts@[k] == count_of(
                    t@.subrange(0, i as int),
                    element_at(k),
                ),
            forall|k: int| 0 <= k < 5 ==> #[trigger] counts@[k] <= i,
        decreases 10 - i,
    {
        assert(t@.subrange(0, i + 1).drop_last() =~= t@.subrange(0, i as int));
        let e = digit_to_element(t[i]);
        let k = e.index();
        assert(element_at(k as int) == e);
        counts.set(k, counts[k] + 1);
        i = i + 1;
    }
    assert(t@.subrange(0, 10) =~= t@);
    counts
}

/// The check of the compatibility filter that a number failed first.
#[derive(Debug, Clone, Copy, PartialEq, Eq, Structural)]
pub enum CompatFailure {
    /// Some element is missing.
    Incomplete,
    /// Some element occurs more than `filter_any_max` times.
    Dominance,
    /// Too many digits of the element that overcomes menh.
    TooManyKhac,
    /// Too many digits of the element that menh overcomes.
    TooManyBiKhac,
    /// Too few digits of the element that generates menh.
    TooFewSinh,
    /// Too few digits of menh's own element.
    TooFewCung,
    /// Too many digits that generate menh or share its element, together.
    TooManySinhCung,
}

/// The compatibility filter on transformed digits `t`: its seven checks in
/// order, the first that fails decides.
pub open spec fn compat_verdict(t: Seq<u8>, cfg: AnalyzeConfig) -> Result<(), CompatFailure> {
    let (sinh, cung, bi_khac, khac, _) = roles(cfg.user_menh);
    if cfg.toggle_completeness && exists|k: int| 0 <= k < 5 && #[trigger] count_of(t, element_at(k)) == 0 {
        Err(CompatFailure::Incomplete)
    } else if exists|k: int| 0 <= k < 5 && #[trigger] count_of(t, element_at(k)) > cfg.filter_any_max {
        Err(CompatFailure::Dominance)
    } else if count_of(t, khac) > cfg.filter_khac_max {
        Err(CompatFailure::TooManyKhac)
    } else if count_of(t, bi_khac) > cfg.filter_bi_khac_max {
        Err(CompatFailure::TooManyBiKhac)
    } else if count_of(t, sinh) < cfg.filter_sinh_min {
        Err(CompatFailure::TooFewSinh)
    } else if count_of(t, cung) < cfg.filter_cung_min {
        Err(CompatFailure::TooFewCung)
    } else if count_of(t, sinh) + count_of(t, cung) > cfg.filter_tong_max {
        Err(CompatFailure::TooManySinhCung)
    } else {
        Ok(())
    }
}

/// Transforming twice is transforming once: no transformed digit is 0.
pub proof fn lemma_transform_idempotent(s: Seq<u8>)
    ensures
        transform(transform(s)) == transform(s),
{
    assert(transform(transform(s)) =~= transform(s));
}

} // verus!
