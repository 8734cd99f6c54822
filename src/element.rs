//! The five elements, the digit table, the relation matrix and the roles that
//! each element takes relative to a reference element.
use vstd::prelude::*;

verus! {

/// One of the five elements: Water, Earth, Wood, Metal, Fire.
#[derive(Debug, Clone, Copy, PartialEq, Eq, Hash, Structural)]
pub enum Element {
    Thuy,
    Tho,
    Moc,
    Kim,
    Hoa,
}

impl Element {
    /// Position of the element in the order Water, Earth, Wood, Metal, Fire.
    pub open spec fn spec_index(self) -> nat {
        match self {
            Element::Thuy => 0,
            Element::Tho => 1,
            Element::Moc => 2,
            Element::Kim => 3,
            Element::Hoa => 4,
        }
    }

    pub fn index(&self) -> (r: usize)
        ensures
            r == self.spec_index(),
            r < 5,
    {
        match self {
            Element::Thuy => 0,
            Element::Tho => 1,
            Element::Moc => 2,
            Element::Kim => 3,
            Element::Hoa => 4,
        }
    }
}

impl Default for Element {
    fn default() -> (r: Element)
        ensures
            r == Element::Kim,
    {
        Element::Kim
    }
}

/// The element of a decimal digit.
pub open spec fn element_of(d: u8) -> Element
    recommends
        d < 10,
{
    if d == 1 {
        Element::Thuy
    } else if d == 0 || d == 2 || d == 5 || d == 8 {
        Element::Tho
    } else if d == 3 || d == 4 {
        Element::Moc
    } else if d == 6 || d == 7 {
        Element::Kim
    } else {
        Element::Hoa
    }
}

/// Classifies a digit; every digit 0 to 9 has exactly one element.
pub fn digit_to_element(d: u8) -> (r: Element)
    requires
        d < 10,
    ensures
        r == element_of(d),
        d == 1 ==> r == Element::Thuy,
        (d == 0 || d == 2 || d == 5 || d == 8) ==> r == Element::Tho,
        (d == 3 || d == 4) ==> r == Element::Moc,
        (d == 6 || d == 7) ==> r == Element::Kim,
        d == 9 ==> r == Element::Hoa,
{
    match d {
        1 => Element::Thuy,
        0 | 2 | 5 | 8 => Element::Tho,
        3 | 4 => Element::Moc,
        6 | 7 => Element::Kim,
        _ => Element::Hoa,
    }
}

/// The generating/overcoming relation between an ordered pair of elements,
/// row `from`, column `to`.
pub open spec fn relation(from: Element, to: Element) -> int {
    match (from, to) {
        (Element::Thuy, Element::Tho) => -1,
        (Element::Thuy, Element::Moc) => 1,
        (Element::Thuy, Element::Hoa) => -1,
        (Element::Tho, Element::Thuy) => 1,
        (Element::Tho, Element::Moc) => -1,
        (Element::Tho, Element::Hoa) => 1,
        (Element::Moc, Element::Tho) => 1,
        (Element::Moc, Element::Kim) => -1,
        (Element::Moc, Element::Hoa) => 1,
        (Element::Kim, Element::Thuy) => 1,
        (Element::Kim, Element::Moc) => 1,
        (Element::Kim, Element::Hoa) => -1,
        (Element::Hoa, Element::Thuy) => -1,
        (Element::Hoa, Element::Tho) => 1,
        (Element::Hoa, Element::Kim) => 1,
        _ => 0,
    }
}

/// The relation matrix, indexed `[from][to]` by element position.
pub const RELATION_MATRIX: [[i8; 5]; 5] = [
    [0, -1, 1, 0, -1],
    [1, 0, -1, 0, 1],
    [0, 1, 0, -1, 1],
    [1, 0, 1, 0, -1],
    [-1, 1, 0, 1, 0],
];

/// Looks up the relation matrix for an ordered pair of elements.
pub fn relation_of(from: Element, to: Element) -> (r: i8)
    ensures
        r == relation(from, to),
        -1 <= r <= 1,
{
    let row = RELATION_MATRIX[from.index()];
    row[to.index()]
}

/// The roles relative to a reference element `menh`, in the order
/// (generates menh, same as menh, weakened by menh, overcomes menh,
/// generated by menh).
pub open spec fn roles(menh: Element) -> (Element, Element, Element, Element, Element) {
    match menh {
        Element::Kim => (Element::Tho, Element::Kim, Element::Moc, Element::Hoa, Element::Thuy),
        Element::Moc => (Element::Thuy, Element::Moc, Element::Tho, Element::Kim, Element::Hoa),
        Element::Thuy => (Element::Kim, Element::Thuy, Element::Hoa, Element::Tho, Element::Moc),
        Element::Hoa => (Element::Moc, Element::Hoa, Element::Kim, Element::Thuy, Element::Tho),
        Element::Tho => (Element::Hoa, Element::Tho, Element::Thuy, Element::Moc, Element::Kim),
    }
}

/// The role quintuple of `menh`, looked up in the fixed table.
pub fn get_element_roles(menh: Element) -> (r: (Element, Element, Element, Element, Element))
    ensures
        r == roles(menh),
{
    match menh {
        Element::Kim => (Element::Tho, Element::Kim, Element::Moc, Element::Hoa, Element::Thuy),
        Element::Moc => (Element::Thuy, Element::Moc, Element::Tho, Element::Kim, Element::Hoa),
        Element::Thuy => (Element::Kim, Element::Thuy, Element::Hoa, Element::Tho, Element::Moc),
        Element::Hoa => (Element::Moc, Element::Hoa, Element::Kim, Element::Thuy, Element::Tho),
        Element::Tho => (Element::Hoa, Element::Tho, Element::Thuy, Element::Moc, Element::Kim),
    }
}

/// Every digit 0 to 9 is classified, and its element is one of the five.
pub proof fn lemma_classify_total(d: u8)
    requires
        d < 10,
    ensures
        element_of(d) == Element::Thuy || element_of(d) == Element::Tho || element_of(d)
            == Element::Moc || element_of(d) == Element::Kim || element_of(d) == Element::Hoa,
        element_of(d).spec_index() < 5,
{
}

/// For every reference element, its five roles are five distinct elements,
/// so every element takes exactly one role, and menh itself is "same as".
pub proof fn lemma_roles_partition(menh: Element)
    ensures
        ({
            let (sinh, cung, bi_khac, khac, sinh_xuat) = roles(menh);
            &&& cung == menh
            &&& sinh != cung && sinh != bi_khac && sinh != khac && sinh != sinh_xuat
            &&& cung != bi_khac && cung != khac && cung != sinh_xuat
            &&& bi_khac != khac && bi_khac != sinh_xuat
            &&& khac != sinh_xuat
            &&& forall|e: Element|
                #![trigger e.spec_index()]
                e == sinh || e == cung || e == bi_khac || e == khac || e == sinh_xuat
        }),
{
    let (sinh, cung, bi_khac, khac, sinh_xuat) = roles(menh);
    assert forall|e: Element|
        #![trigger e.spec_index()]
        e == sinh || e == cung || e == bi_khac || e == khac || e == sinh_xuat by {
        match e {
            Element::Thuy => {},
            Element::Tho => {},
            Element::Moc => {},
            Element::Kim => {},
            Element::Hoa => {},
        }
    }
}

} // verus!
