//! The stock-movement and relationship rules, as pure functions on records.
//!
//! A movement names a source tag and a destination tag.  A recognized tag
//! names one of the five locations; an unrecognized tag leaves its side of
//! the movement untouched.  A debit that exceeds the source count, or a
//! credit that would not fit its counter, is refused outright.

use vstd::prelude::*;
use vstd::slice::slice_subrange;
use crate::records::{Components, ComponentsV, Products, ProductsV};

verus! {

/// The five stock-holding locations.
#[derive(Clone, Copy, PartialEq, Eq, Structural, Debug)]
pub enum Location {
    Cn,
    Kling,
    StJakob,
    Wurenlos,
    Flf,
}

/// Why a movement's quantity adjustment is refused.
#[derive(Clone, Copy, PartialEq, Eq, Structural, Debug)]
pub enum MovementFault {
    /// The source location holds less than the moved quantity.
    InsufficientStock,
    /// The destination counter would overflow.
    QuantityOverflow,
}

/// The location a tag names, if any.
pub open spec fn spec_parse_location(tag: Seq<char>) -> Option<Location> {
    if tag == "CN"@ {
        Some(Location::Cn)
    } else if tag == "Kling"@ {
        Some(Location::Kling)
    } else if tag == "St Jakob"@ {
        Some(Location::StJakob)
    } else if tag == "Wurenlos"@ {
        Some(Location::Wurenlos)
    } else if tag == "FLF"@ {
        Some(Location::Flf)
    } else {
        None
    }
}

/// The stock a component record counts at one location.
pub open spec fn component_qty(c: ComponentsV, loc: Location) -> u64 {
    match loc {
        Location::Cn => c.cn,
        Location::Kling => c.kling,
        Location::StJakob => c.st_jacob,
        Location::Wurenlos => c.wurenlos,
        Location::Flf => c.flf,
    }
}

/// The record with one location's count replaced.
pub open spec fn with_component_qty(c: ComponentsV, loc: Location, v: u64) -> ComponentsV {
    match loc {
        Location::Cn => ComponentsV { cn: v, ..c },
        Location::Kling => ComponentsV { kling: v, ..c },
        Location::StJakob => ComponentsV { st_jacob: v, ..c },
        Location::Wurenlos => ComponentsV { wurenlos: v, ..c },
        Location::Flf => ComponentsV { flf: v, ..c },
    }
}

/// The credit side of a movement: adds `q` at the destination if its tag is
/// recognized, refusing a count that would overflow.
pub open spec fn spec_credit_component(c: ComponentsV, dst: Seq<char>, q: u64) -> Result<
    ComponentsV,
    MovementFault,
> {
    match spec_parse_location(dst) {
        Some(l) => if component_qty(c, l) + q > u64::MAX {
            Err(MovementFault::QuantityOverflow)
        } else {
            Ok(with_component_qty(c, l, (component_qty(c, l) + q) as u64))
        },
        None => Ok(c),
    }
}

/// A whole movement on a component record: debit the source, then credit
/// the destination.  A side with an unrecognized tag is left untouched.
pub open spec fn spec_move_component(
    c: ComponentsV,
    src: Seq<char>,
    dst: Seq<char>,
    q: u64,
) -> Result<ComponentsV, MovementFault> {
    match spec_parse_location(src) {
        Some(l) => if component_qty(c, l) < q {
            Err(MovementFault::InsufficientStock)
        } else {
            spec_credit_component(
                with_component_qty(c, l, (component_qty(c, l) - q) as u64),
                dst,
                q,
            )
        },
        None => spec_credit_component(c, dst, q),
    }
}

/// The stock a component record counts under a tag; an unrecognized tag
/// counts as zero.
pub open spec fn spec_level_of(c: ComponentsV, tag: Seq<char>) -> u64 {
    match spec_parse_location(tag) {
        Some(l) => component_qty(c, l),
        None => 0,
    }
}

/// The product record after linking one component id: a singleton list when
/// none exists, an append when the id is missing, a no-op when it is present.
pub open spec fn spec_link_component(p: ProductsV, cid: Seq<char>) -> ProductsV {
    match p.components {
        None => ProductsV { components: Some(seq![cid]), ..p },
        Some(l) => if l.contains(cid) {
            p
        } else {
            ProductsV { components: Some(l.push(cid)), ..p }
        },
    }
}

/// How often a list holds one id.
pub open spec fn occurrences(l: Seq<Seq<char>>, x: Seq<char>) -> nat
    decreases l.len(),
{
    if l.len() == 0 {
        0
    } else {
        (if l[0] == x {
            1nat
        } else {
            0nat
        }) + occurrences(l.drop_first(), x)
    }
}

/// A list holds an id if and only if it holds it a positive number of times.
pub proof fn lemma_occurrences_contains(l: Seq<Seq<char>>, x: Seq<char>)
    ensures
        occurrences(l, x) == 0 <==> !l.contains(x),
    decreases l.len(),
{
    if l.len() == 0 {
    } else {
        lemma_occurrences_contains(l.drop_first(), x);
        if l[0] == x {
        } else {
            assert(l.contains(x) ==> l.drop_first().contains(x)) by {
                if l.contains(x) {
                    let k = choose|k: int| 0 <= k < l.len() && l[k] == x;
                    assert(l.drop_first()[k - 1] == x);
                }
            }
            assert(l.drop_first().contains(x) ==> l.contains(x)) by {
                if l.drop_first().contains(x) {
                    let k = choose|k: int| 0 <= k < l.drop_first().len() && l.drop_first()[k] == x;
                    assert(l[k + 1] == x);
                }
            }
        }
    }
}

/// Appending an id raises its count by one and no other id's count.
pub proof fn lemma_occurrences_push(l: Seq<Seq<char>>, x: Seq<char>, y: Seq<char>)
    ensures
        occurrences(l.push(y), x) == occurrences(l, x) + (if x == y {
            1nat
        } else {
            0nat
        }),
    decreases l.len(),
{
    if l.len() == 0 {
        assert(l.push(y)[0] == y);
        assert(l.push(y).drop_first() =~= l);
    } else {
        assert(l.push(y)[0] == l[0]);
        assert(l.push(y).drop_first() =~= l.drop_first().push(y));
        lemma_occurrences_push(l.drop_first(), x, y);
    }
}

// ---------------------------------------------------------------------------
// Laws of the movement and relationship rules.
// ---------------------------------------------------------------------------

/// Movement conservation: when both tags are recognized, name distinct
/// locations, and neither underflow nor overflow bars the movement, the
/// source count falls by exactly the moved quantity, the destination count
/// rises by exactly the moved quantity, and every other part of the record
/// is unchanged.
pub proof fn lemma_movement_conservation(c: ComponentsV, src: Seq<char>, dst: Seq<char>, q: u64)
    requires
        spec_parse_location(src) is Some,
        spec_parse_location(dst) is Some,
        spec_parse_location(src) != spec_parse_location(dst),
        component_qty(c, spec_parse_location(src).unwrap()) >= q,
        component_qty(c, spec_parse_location(dst).unwrap()) + q <= u64::MAX,
    ensures
        ({
            let ls = spec_parse_location(src).unwrap();
            let ld = spec_parse_location(dst).unwrap();
            &&& spec_move_component(c, src, dst, q) matches Ok(c2)
            &&& component_qty(spec_move_component(c, src, dst, q).unwrap(), ls) == component_qty(
                c,
                ls,
            ) - q
            &&& component_qty(spec_move_component(c, src, dst, q).unwrap(), ld) == component_qty(
                c,
                ld,
            ) + q
            &&& forall|l: Location|
                l != ls && l != ld ==> #[trigger] component_qty(
                    spec_move_component(c, src, dst, q).unwrap(),
                    l,
                ) == component_qty(c, l)
            &&& fields_besides_quantities_equal(spec_move_component(c, src, dst, q).unwrap(), c)
        }),
{
}

/// The parts of a component record a movement never touches.
pub open spec fn fields_besides_quantities_equal(a: ComponentsV, b: ComponentsV) -> bool {
    &&& a.product_id == b.product_id
    &&& a.product_name == b.product_name
    &&& a.component_name == b.component_name
    &&& a.component_id == b.component_id
    &&& a.wurenlos_sold == b.wurenlos_sold
    &&& a.in_transit == b.in_transit
    &&& a.total_available == b.total_available
    &&& a.ordered_surplus == b.ordered_surplus
    &&& a.reserver_for_orders == b.reserver_for_orders
    &&& a.waste == b.waste
    &&& a.customer == b.customer
    &&& a.assembly_line == b.assembly_line
}

/// Linking the same component twice is the same as linking it once.
pub proof fn lemma_link_idempotent(p: ProductsV, cid: Seq<char>)
    ensures
        spec_link_component(spec_link_component(p, cid), cid) == spec_link_component(p, cid),
{
    let p1 = spec_link_component(p, cid);
    match p.components {
        None => {
            assert(seq![cid].contains(cid)) by {
                assert(seq![cid][0] == cid);
            }
        },
        Some(l) => {
            if l.contains(cid) {
            } else {
                assert(l.push(cid).contains(cid)) by {
                    assert(l.push(cid)[l.len() as int] == cid);
                }
            }
        },
    }
}

/// After a link the component list holds the id exactly once, provided it
/// held it at most once before, as lists built by the linker do.
pub proof fn lemma_link_exactly_once(p: ProductsV, cid: Seq<char>)
    requires
        p.components matches Some(l) ==> occurrences(l, cid) <= 1,
    ensures
        ({
            let p1 = spec_link_component(p, cid);
            p1.components matches Some(l1) && occurrences(l1, cid) == 1
        }),
{
    match p.components {
        None => {
            assert(seq![cid].drop_first() =~= Seq::<Seq<char>>::empty());
            assert(occurrences(Seq::<Seq<char>>::empty(), cid) == 0);
            assert(seq![cid][0] == cid);
            assert(occurrences(seq![cid], cid) == 1);
        },
        Some(l) => {
            lemma_occurrences_contains(l, cid);
            if l.contains(cid) {
            } else {
                lemma_occurrences_push(l, cid, cid);
            }
        },
    }
}

// ---------------------------------------------------------------------------
// Executable counterparts.
// ---------------------------------------------------------------------------

/// Whether two strings hold the same characters.
pub fn str_eq(a: &str, b: &str) -> (r: bool)
    ensures
        r == (a@ == b@),
{
    let ab = a.as_bytes();
    let bb = b.as_bytes();
    if ab.len() != bb.len() {
        proof {
            if a@ == b@ {
                assert(ab@ == bb@);
            }
        }
        return false;
    }
    let mut k: usize = 0;
    while k < ab.len()
        invariant
            k <= ab@.len(),
            ab@.len() == bb@.len(),
            ab@ == vstd::utf8::encode_utf8(a@),
            bb@ == vstd::utf8::encode_utf8(b@),
            forall|q: int| 0 <= q < k ==> ab@[q] == bb@[q],
        decreases ab@.len() - k,
    {
        if ab[k] != bb[k] {
            proof {
                if a@ == b@ {
                    assert(ab@ == bb@);
                }
            }
            return false;
        }
        k = k + 1;
    }
    proof {
        assert(ab@ =~= bb@);
        vstd::utf8::encode_utf8_decode_utf8(a@);
        vstd::utf8::encode_utf8_decode_utf8(b@);
    }
    true
}

/// Reads a location tag.
pub fn parse_location(tag: &str) -> (r: Option<Location>)
    ensures
        r == spec_parse_location(tag@),
{
    if str_eq(tag, "CN") {
        Some(Location::Cn)
    } else if str_eq(tag, "Kling") {
        Some(Location::Kling)
    } else if str_eq(tag, "St Jakob") {
        Some(Location::StJakob)
    } else if str_eq(tag, "Wurenlos") {
        Some(Location::Wurenlos)
    } else if str_eq(tag, "FLF") {
        Some(Location::Flf)
    } else {
        None
    }
}

/// Copies a component record.
pub fn clone_component(c: &Components) -> (r: Components)
    ensures
        r@ == c@,
{
    Components {
        product_id: c.product_id.clone(),
        product_name: c.product_name.clone(),
        component_name: c.component_name.clone(),
        component_id: c.component_id.clone(),
        cn: c.cn,
        kling: c.kling,
        st_jacob: c.st_jacob,
        wurenlos: c.wurenlos,
        wurenlos_sold: c.wurenlos_sold,
        flf: c.flf,
        in_transit: c.in_transit,
        total_available: c.total_available,
        ordered_surplus: c.ordered_surplus,
        reserver_for_orders: c.reserver_for_orders,
        waste: c.waste,
        customer: c.customer,
        assembly_line: c.assembly_line,
    }
}

/// The count one location holds on a component record.
fn read_qty(c: &Components, loc: Location) -> (r: u64)
    ensures
        r == component_qty(c@, loc),
{
    match loc {
        Location::Cn => c.cn,
        Location::Kling => c.kling,
        Location::StJakob => c.st_jacob,
        Location::Wurenlos => c.wurenlos,
        Location::Flf => c.flf,
    }
}

/// Replaces the count one location holds on a component record.
fn write_qty(c: &mut Components, loc: Location, v: u64)
    ensures
        final(c)@ == with_component_qty(old(c)@, loc, v),
{
    match loc {
        Location::Cn => {
            c.cn = v;
        },
        Location::Kling => {
            c.kling = v;
        },
        Location::StJakob => {
            c.st_jacob = v;
        },
        Location::Wurenlos => {
            c.wurenlos = v;
        },
        Location::Flf => {
            c.flf = v;
        },
    }
}

/// Applies one movement to a component record.
pub fn move_component(c: &Components, src: &str, dst: &str, q: u64) -> (r: Result<
    Components,
    MovementFault,
>)
    ensures
        r matches Ok(c2) ==> spec_move_component(c@, src@, dst@, q) == Ok::<
            ComponentsV,
            MovementFault,
        >(c2@),
        r matches Err(e) ==> spec_move_component(c@, src@, dst@, q) == Err::<
            ComponentsV,
            MovementFault,
        >(e),
{
    let mut out = clone_component(c);
    match parse_location(src) {
        Some(l) => {
            let have = read_qty(&out, l);
            if have < q {
                return Err(MovementFault::InsufficientStock);
            }
            write_qty(&mut out, l, have - q);
        },
        None => {},
    }
    match parse_location(dst) {
        Some(l) => {
            let have = read_qty(&out, l);
            if q > u64::MAX - have {
                return Err(MovementFault::QuantityOverflow);
            }
            write_qty(&mut out, l, have + q);
        },
        None => {},
    }
    Ok(out)
}

/// The stock one component counts under a tag; an unrecognized tag counts
/// as zero.
pub fn level_of(c: &Components, tag: &str) -> (r: u64)
    ensures
        r == spec_level_of(c@, tag@),
{
    match parse_location(tag) {
        Some(l) => read_qty(c, l),
        None => 0,
    }
}

/// Copies a product record.
pub fn clone_product(p: &Products) -> (r: Products)
    ensures
        r@ == p@,
{
    let components = match &p.components {
        Option::Some(l) => Some(clone_str_vec(l)),
        Option::None => None,
    };
    Products {
        product_name: p.product_name.clone(),
        product_id: p.product_id.clone(),
        components,
        cn: p.cn,
        kling: p.kling,
        st_jacob: p.st_jacob,
        wurenlos: p.wurenlos,
        wurenlos_sold: p.wurenlos_sold,
        flf: p.flf,
        in_transit: p.in_transit,
        total_available: p.total_available,
        reserver_for_orders: p.reserver_for_orders,
        waste: p.waste,
        customer: p.customer,
    }
}

/// Copies a vector of strings.
fn clone_str_vec(l: &Vec<String>) -> (r: Vec<String>)
    ensures
        r@ == l@,
{
    let mut r: Vec<String> = Vec::new();
    let mut k: usize = 0;
    while k < l.len()
        invariant
            k <= l@.len(),
            r@ == l@.take(k as int),
        decreases l@.len() - k,
    {
        r.push(l[k].clone());
        proof {
            assert(l@.take(k as int).push(l@[k as int]) =~= l@.take(k + 1 as int));
        }
        k = k + 1;
    }
    proof {
        assert(l@.take(l@.len() as int) =~= l@);
    }
    r
}

/// Whether a list of ids holds one id.
fn contains_id(l: &Vec<String>, cid: &str) -> (r: bool)
    ensures
        r == l.deep_view().contains(cid@),
{
    let mut k: usize = 0;
    while k < l.len()
        invariant
            k <= l@.len(),
            l.deep_view().len() == l@.len(),
            forall|q: int| 0 <= q < k ==> l.deep_view()[q] != cid@,
        decreases l@.len() - k,
    {
        if str_eq(l[k].as_str(), cid) {
            proof {
                assert(l.deep_view()[k as int] == cid@);
            }
            return true;
        }
        k = k + 1;
    }
    proof {
        if l.deep_view().contains(cid@) {
            let q = choose|q: int| 0 <= q < l.deep_view().len() && l.deep_view()[q] == cid@;
        }
    }
    false
}

/// Links one component id into a product record.
pub fn link_component(p: &Products, cid: &str) -> (r: Products)
    ensures
        r@ == spec_link_component(p@, cid@),
{
    let mut out = clone_product(p);
    match &p.components {
        Option::None => {
            let mut l: Vec<String> = Vec::new();
            l.push(cid.to_owned());
            proof {
                assert(l.deep_view() =~= seq![cid@]);
            }
            out.components = Some(l);
        },
        Option::Some(l) => {
            if contains_id(l, cid) {
            } else {
                let mut l2 = clone_str_vec(l);
                l2.push(cid.to_owned());
                proof {
                    assert(l2.deep_view() =~~= l.deep_view().push(cid@));
                }
                out.components = Some(l2);
            }
        },
    }
    out
}

} // verus!
