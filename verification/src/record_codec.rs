//! The stored encoding of each record kind.
//!
//! Every record is stored as the encoding of its field list (see
//! [`crate::codec`]).  For each kind this module gives the field list, the
//! encoding, the decoding as its partial inverse, executable encode and
//! decode functions that match them exactly, and the round-trip law.

use vstd::prelude::*;
use crate::codec::{
    Field, FieldV, enc_fields, dec_fields, fields_bounded, spec_enc_fields, views_of,
    lemma_enc_fields_inj,
};
use crate::records::{
    Date, Products, ProductsV, Components, ComponentsV, Movements, MovementsV, SuppliersOrders,
    SuppliersOrdersV, Orders, OrdersV, Procurement, ProcurementV, Procurements, ProcurementsV,
    AssemblyTimeLine, AssemblyTimeLineV, ProductionRate, ProductionRateV, RecorderPoint,
    RecorderPointV, Watches, WatchesV,
};

verus! {

/// Copies a vector of strings.
fn clone_str_vec(l: &Vec<String>) -> (r: Vec<String>)
    ensures
        r@ == l@,
{
    let mut r: Vec<String> = Vec::new();
    let mut k: usize = 0;
    while k < l.len()
        invariant
            k <= l@.len(),
            r@ == l@.take(k as int),
        decreases l@.len() - k,
    {
        r.push(l[k].clone());
        proof {
            assert(l@.take(k as int).push(l@[k as int]) =~= l@.take(k + 1 as int));
        }
        k = k + 1;
    }
    proof {
        assert(l@.take(l@.len() as int) =~= l@);
    }
    r
}

/// Copies a vector of numbers.
fn copy_u64_vec(l: &Vec<u64>) -> (r: Vec<u64>)
    ensures
        r@ == l@,
{
    let mut r: Vec<u64> = Vec::new();
    let mut k: usize = 0;
    while k < l.len()
        invariant
            k <= l@.len(),
            r@ == l@.take(k as int),
        decreases l@.len() - k,
    {
        r.push(l[k]);
        proof {
            assert(l@.take(k as int).push(l@[k as int]) =~= l@.take(k + 1 as int));
        }
        k = k + 1;
    }
    proof {
        assert(l@.take(l@.len() as int) =~= l@);
    }
    r
}


/// The field list of one products record.
pub open spec fn products_fields(v: ProductsV) -> Seq<FieldV> {
    seq![
        FieldV::S(v.product_name),
        FieldV::S(v.product_id),
        FieldV::OptSList(v.components),
        FieldV::U64(v.cn),
        FieldV::U64(v.kling),
        FieldV::U64(v.st_jacob),
        FieldV::U64(v.wurenlos),
        FieldV::U64(v.wurenlos_sold),
        FieldV::U64(v.flf),
        FieldV::U64(v.in_transit),
        FieldV::U64(v.total_available),
        FieldV::U64(v.reserver_for_orders),
        FieldV::U64(v.waste),
        FieldV::U64(v.customer),
    ]
}

/// All length prefixes of the record fit their `u64` slots.
pub open spec fn products_bounded(v: ProductsV) -> bool {
    fields_bounded(products_fields(v))
}

/// The stored encoding of one products record.
pub open spec fn spec_enc_products(v: ProductsV) -> Seq<u8> {
    spec_enc_fields(products_fields(v))
}

/// Decoding is the partial inverse of encoding.
pub open spec fn spec_dec_products(b: Seq<u8>) -> Option<ProductsV> {
    if exists|v: ProductsV| products_bounded(v) && spec_enc_products(v) == b {
        Some(choose|v: ProductsV| products_bounded(v) && spec_enc_products(v) == b)
    } else {
        None
    }
}

proof fn lemma_products_fields_inj(v1: ProductsV, v2: ProductsV)
    requires
        products_fields(v1) == products_fields(v2),
    ensures
        v1 == v2,
{
    assert(products_fields(v1)[0] == products_fields(v2)[0]);
    assert(products_fields(v1)[1] == products_fields(v2)[1]);
    assert(products_fields(v1)[2] == products_fields(v2)[2]);
    assert(products_fields(v1)[3] == products_fields(v2)[3]);
    assert(products_fields(v1)[4] == products_fields(v2)[4]);
    assert(products_fields(v1)[5] == products_fields(v2)[5]);
    assert(products_fields(v1)[6] == products_fields(v2)[6]);
    assert(products_fields(v1)[7] == products_fields(v2)[7]);
    assert(products_fields(v1)[8] == products_fields(v2)[8]);
    assert(products_fields(v1)[9] == products_fields(v2)[9]);
    assert(products_fields(v1)[10] == products_fields(v2)[10]);
    assert(products_fields(v1)[11] == products_fields(v2)[11]);
    assert(products_fields(v1)[12] == products_fields(v2)[12]);
    assert(products_fields(v1)[13] == products_fields(v2)[13]);
}

/// Decoding inverts encoding on every bounded products record value.
pub proof fn lemma_products_round_trip(v: ProductsV)
    requires
        products_bounded(v),
    ensures
        spec_dec_products(spec_enc_products(v)) == Some(v),
{
    let b = spec_enc_products(v);
    assert(products_bounded(v) && spec_enc_products(v) == b);
    let w = choose|w: ProductsV| products_bounded(w) && spec_enc_products(w) == b;
    lemma_enc_fields_inj(products_fields(w), products_fields(v));
    lemma_products_fields_inj(w, v);
}


/// Encodes one products record for storage.
pub fn enc_products(r: &Products) -> (out: Vec<u8>)
    ensures
        out@ == spec_enc_products(r@),
        products_bounded(r@),
{
    let mut fs: Vec<Field> = Vec::new();
    fs.push(Field::S(r.product_name.clone()));
    fs.push(Field::S(r.product_id.clone()));
    match &r.components {
        Option::Some(l) => fs.push(Field::OptSList(Some(clone_str_vec(l)))),
        Option::None => fs.push(Field::OptSList(None)),
    }
    fs.push(Field::U64(r.cn));
    fs.push(Field::U64(r.kling));
    fs.push(Field::U64(r.st_jacob));
    fs.push(Field::U64(r.wurenlos));
    fs.push(Field::U64(r.wurenlos_sold));
    fs.push(Field::U64(r.flf));
    fs.push(Field::U64(r.in_transit));
    fs.push(Field::U64(r.total_available));
    fs.push(Field::U64(r.reserver_for_orders));
    fs.push(Field::U64(r.waste));
    fs.push(Field::U64(r.customer));
    let out = enc_fields(&fs);
    proof {
        assert(views_of(fs@) =~= products_fields(r@));
    }
    out
}


/// The field list of one components record.
pub open spec fn components_fields(v: ComponentsV) -> Seq<FieldV> {
    seq![
        FieldV::S(v.product_id),
        FieldV::S(v.product_name),
        FieldV::S(v.component_name),
        FieldV::S(v.component_id),
        FieldV::U64(v.cn),
        FieldV::U64(v.kling),
        FieldV::U64(v.st_jacob),
        FieldV::U64(v.wurenlos),
        FieldV::U64(v.wurenlos_sold),
        FieldV::U64(v.flf),
        FieldV::U64(v.in_transit),
        FieldV::U64(v.total_available),
        FieldV::U64(v.ordered_surplus),
        FieldV::U64(v.reserver_for_orders),
        FieldV::U64(v.waste),
        FieldV::U64(v.customer),
        FieldV::U64(v.assembly_line),
    ]
}

/// All length prefixes of the record fit their `u64` slots.
pub open spec fn components_bounded(v: ComponentsV) -> bool {
    fields_bounded(components_fields(v))
}

/// The stored encoding of one components record.
pub open spec fn spec_enc_components(v: ComponentsV) -> Seq<u8> {
    spec_enc_fields(components_fields(v))
}

/// Decoding is the partial inverse of encoding.
pub open spec fn spec_dec_components(b: Seq<u8>) -> Option<ComponentsV> {
    if exists|v: ComponentsV| components_bounded(v) && spec_enc_components(v) == b {
        Some(choose|v: ComponentsV| components_bounded(v) && spec_enc_components(v) == b)
    } else {
        None
    }
}

proof fn lemma_components_fields_inj(v1: ComponentsV, v2: ComponentsV)
    requires
        components_fields(v1) == components_fields(v2),
    ensures
        v1 == v2,
{
    assert(components_fields(v1)[0] == components_fields(v2)[0]);
    assert(components_fields(v1)[1] == components_fields(v2)[1]);
    assert(components_fields(v1)[2] == components_fields(v2)[2]);
    assert(components_fields(v1)[3] == components_fields(v2)[3]);
    assert(components_fields(v1)[4] == components_fields(v2)[4]);
    assert(components_fields(v1)[5] == components_fields(v2)[5]);
    assert(components_fields(v1)[6] == components_fields(v2)[6]);
    assert(components_fields(v1)[7] == components_fields(v2)[7]);
    assert(components_fields(v1)[8] == components_fields(v2)[8]);
    assert(components_fields(v1)[9] == components_fields(v2)[9]);
    assert(components_fields(v1)[10] == components_fields(v2)[10]);
    assert(components_fields(v1)[11] == components_fields(v2)[11]);
    assert(components_fields(v1)[12] == components_fields(v2)[12]);
    assert(components_fields(v1)[13] == components_fields(v2)[13]);
    assert(components_fields(v1)[14] == components_fields(v2)[14]);
    assert(components_fields(v1)[15] == components_fields(v2)[15]);
    assert(components_fields(v1)[16] == components_fields(v2)[16]);
}

/// Decoding inverts encoding on every bounded components record value.
pub proof fn lemma_components_round_trip(v: ComponentsV)
    requires
        components_bounded(v),
    ensures
        spec_dec_components(spec_enc_components(v)) == Some(v),
{
    let b = spec_enc_components(v);
    assert(components_bounded(v) && spec_enc_components(v) == b);
    let w = choose|w: ComponentsV| components_bounded(w) && spec_enc_components(w) == b;
    lemma_enc_fields_inj(components_fields(w), components_fields(v));
    lemma_components_fields_inj(w, v);
}


/// Encodes one components record for storage.
pub fn enc_components(r: &Components) -> (out: Vec<u8>)
    ensures
        out@ == spec_enc_components(r@),
        components_bounded(r@),
{
    let mut fs: Vec<Field> = Vec::new();
    fs.push(Field::S(r.product_id.clone()));
    fs.push(Field::S(r.product_name.clone()));
    fs.push(Field::S(r.component_name.clone()));
    fs.push(Field::S(r.component_id.clone()));
    fs.push(Field::U64(r.cn));
    fs.push(Field::U64(r.kling));
    fs.push(Field::U64(r.st_jacob));
    fs.push(Field::U64(r.wurenlos));
    fs.push(Field::U64(r.wurenlos_sold));
    fs.push(Field::U64(r.flf));
    fs.push(Field::U64(r.in_transit));
    fs.push(Field::U64(r.total_available));
    fs.push(Field::U64(r.ordered_surplus));
    fs.push(Field::U64(r.reserver_for_orders));
    fs.push(Field::U64(r.waste));
    fs.push(Field::U64(r.customer));
    fs.push(Field::U64(r.assembly_line));
    let out = enc_fields(&fs);
    proof {
        assert(views_of(fs@) =~= components_fields(r@));
    }
    out
}


/// The field list of one movements record.
pub open spec fn movements_fields(v: MovementsV) -> Seq<FieldV> {
    seq![
        FieldV::S(v.movement_id),
        FieldV::S(v.transaction_id),
        FieldV::U64(v.date.year),
        FieldV::U64(v.date.month),
        FieldV::U64(v.date.day),
        FieldV::S(v.movement_type),
        FieldV::OptS(v.component_name),
        FieldV::OptS(v.product_name),
        FieldV::S(v.source_location),
        FieldV::S(v.destination_location),
        FieldV::U64(v.quantity),
        FieldV::OptS(v.notes),
        FieldV::S(v.status),
        FieldV::OptS(v.supplier_order_id),
    ]
}

/// All length prefixes of the record fit their `u64` slots.
pub open spec fn movements_bounded(v: MovementsV) -> bool {
    fields_bounded(movements_fields(v))
}

/// The stored encoding of one movements record.
pub open spec fn spec_enc_movements(v: MovementsV) -> Seq<u8> {
    spec_enc_fields(movements_fields(v))
}

/// Decoding is the partial inverse of encoding.
pub open spec fn spec_dec_movements(b: Seq<u8>) -> Option<MovementsV> {
    if exists|v: MovementsV| movements_bounded(v) && spec_enc_movements(v) == b {
        Some(choose|v: MovementsV| movements_bounded(v) && spec_enc_movements(v) == b)
    } else {
        None
    }
}

proof fn lemma_movements_fields_inj(v1: MovementsV, v2: MovementsV)
    requires
        movements_fields(v1) == movements_fields(v2),
    ensures
        v1 == v2,
{
    assert(movements_fields(v1)[0] == movements_fields(v2)[0]);
    assert(movements_fields(v1)[1] == movements_fields(v2)[1]);
    assert(movements_fields(v1)[2] == movements_fields(v2)[2]);
    assert(movements_fields(v1)[3] == movements_fields(v2)[3]);
    assert(movements_fields(v1)[4] == movements_fields(v2)[4]);
    assert(movements_fields(v1)[5] == movements_fields(v2)[5]);
    assert(movements_fields(v1)[6] == movements_fields(v2)[6]);
    assert(movements_fields(v1)[7] == movements_fields(v2)[7]);
    assert(movements_fields(v1)[8] == movements_fields(v2)[8]);
    assert(movements_fields(v1)[9] == movements_fields(v2)[9]);
    assert(movements_fields(v1)[10] == movements_fields(v2)[10]);
    assert(movements_fields(v1)[11] == movements_fields(v2)[11]);
    assert(movements_fields(v1)[12] == movements_fields(v2)[12]);
    assert(movements_fields(v1)[13] == movements_fields(v2)[13]);
}

/// Decoding inverts encoding on every bounded movements record value.
pub proof fn lemma_movements_round_trip(v: MovementsV)
    requires
        movements_bounded(v),
    ensures
        spec_dec_movements(spec_enc_movements(v)) == Some(v),
{
    let b = spec_enc_movements(v);
    assert(movements_bounded(v) && spec_enc_movements(v) == b);
    let w = choose|w: MovementsV| movements_bounded(w) && spec_enc_movements(w) == b;
    lemma_enc_fields_inj(movements_fields(w), movements_fields(v));
    lemma_movements_fields_inj(w, v);
}


/// Encodes one movements record for storage.
pub fn enc_movements(r: &Movements) -> (out: Vec<u8>)
    ensures
        out@ == spec_enc_movements(r@),
        movements_bounded(r@),
{
    let mut fs: Vec<Field> = Vec::new();
    fs.push(Field::S(r.movement_id.clone()));
    fs.push(Field::S(r.transaction_id.clone()));
    fs.push(Field::U64(r.date.year));
    fs.push(Field::U64(r.date.month));
    fs.push(Field::U64(r.date.day));
    fs.push(Field::S(r.movement_type.clone()));
    match &r.component_name {
        Option::Some(s) => fs.push(Field::OptS(Some(s.clone()))),
        Option::None => fs.push(Field::OptS(None)),
    }
    match &r.product_name {
        Option::Some(s) => fs.push(Field::OptS(Some(s.clone()))),
        Option::None => fs.push(Field::OptS(None)),
    }
    fs.push(Field::S(r.source_location.clone()));
    fs.push(Field::S(r.destination_location.clone()));
    fs.push(Field::U64(r.quantity));
    match &r.notes {
        Option::Some(s) => fs.push(Field::OptS(Some(s.clone()))),
        Option::None => fs.push(Field::OptS(None)),
    }
    fs.push(Field::S(r.status.clone()));
    match &r.supplier_order_id {
        Option::Some(s) => fs.push(Field::OptS(Some(s.clone()))),
        Option::None => fs.push(Field::OptS(None)),
    }
    let out = enc_fields(&fs);
    proof {
        assert(views_of(fs@) =~= movements_fields(r@));
    }
    out
}


/// The field list of one suppliers_orders record.
pub open spec fn suppliers_orders_fields(v: SuppliersOrdersV) -> Seq<FieldV> {
    seq![
        FieldV::S(v.supplier_id),
        FieldV::S(v.component_name),
        FieldV::S(v.procurement_id),
        FieldV::S(v.order_id),
        FieldV::U64(v.total_components_required),
        FieldV::U64(v.components_roundof),
        FieldV::S(v.status),
        FieldV::U64(v.order_date.year),
        FieldV::U64(v.order_date.month),
        FieldV::U64(v.order_date.day),
        FieldV::U64(v.expected_delivery_date.year),
        FieldV::U64(v.expected_delivery_date.month),
        FieldV::U64(v.expected_delivery_date.day),
    ]
}

/// All length prefixes of the record fit their `u64` slots.
pub open spec fn suppliers_orders_bounded(v: SuppliersOrdersV) -> bool {
    fields_bounded(suppliers_orders_fields(v))
}

/// The stored encoding of one suppliers_orders record.
pub open spec fn spec_enc_suppliers_orders(v: SuppliersOrdersV) -> Seq<u8> {
    spec_enc_fields(suppliers_orders_fields(v))
}

/// Decoding is the partial inverse of encoding.
pub open spec fn spec_dec_suppliers_orders(b: Seq<u8>) -> Option<SuppliersOrdersV> {
    if exists|v: SuppliersOrdersV| suppliers_orders_bounded(v) && spec_enc_suppliers_orders(v) == b {
        Some(choose|v: SuppliersOrdersV| suppliers_orders_bounded(v) && spec_enc_suppliers_orders(v) == b)
    } else {
        None
    }
}

proof fn lemma_suppliers_orders_fields_inj(v1: SuppliersOrdersV, v2: SuppliersOrdersV)
    requires
        suppliers_orders_fields(v1) == suppliers_orders_fields(v2),
    ensures
        v1 == v2,
{
    assert(suppliers_orders_fields(v1)[0] == suppliers_orders_fields(v2)[0]);
    assert(suppliers_orders_fields(v1)[1] == suppliers_orders_fields(v2)[1]);
    assert(suppliers_orders_fields(v1)[2] == suppliers_orders_fields(v2)[2]);
    assert(suppliers_orders_fields(v1)[3] == suppliers_orders_fields(v2)[3]);
    assert(suppliers_orders_fields(v1)[4] == suppliers_orders_fields(v2)[4]);
    assert(suppliers_orders_fields(v1)[5] == suppliers_orders_fields(v2)[5]);
    assert(suppliers_orders_fields(v1)[6] == suppliers_orders_fields(v2)[6]);
    assert(suppliers_orders_fields(v1)[7] == suppliers_orders_fields(v2)[7]);
    assert(suppliers_orders_fields(v1)[8] == suppliers_orders_fields(v2)[8]);
    assert(suppliers_orders_fields(v1)[9] == suppliers_orders_fields(v2)[9]);
    assert(suppliers_orders_fields(v1)[10] == suppliers_orders_fields(v2)[10]);
    assert(suppliers_orders_fields(v1)[11] == suppliers_orders_fields(v2)[11]);
    assert(suppliers_orders_fields(v1)[12] == suppliers_orders_fields(v2)[12]);
}

/// Decoding inverts encoding on every bounded suppliers_orders record value.
pub proof fn lemma_suppliers_orders_round_trip(v: SuppliersOrdersV)
    requires
        suppliers_orders_bounded(v),
    ensures
        spec_dec_suppliers_orders(spec_enc_suppliers_orders(v)) == Some(v),
{
    let b = spec_enc_suppliers_orders(v);
    assert(suppliers_orders_bounded(v) && spec_enc_suppliers_orders(v) == b);
    let w = choose|w: SuppliersOrdersV| suppliers_orders_bounded(w) && spec_enc_suppliers_orders(w) == b;
    lemma_enc_fields_inj(suppliers_orders_fields(w), suppliers_orders_fields(v));
    lemma_suppliers_orders_fields_inj(w, v);
}


/// Encodes one suppliers_orders record for storage.
pub fn enc_suppliers_orders(r: &SuppliersOrders) -> (out: Vec<u8>)
    ensures
        out@ == spec_enc_suppliers_orders(r@),
        suppliers_orders_bounded(r@),
{
    let mut fs: Vec<Field> = Vec::new();
    fs.push(Field::S(r.supplier_id.clone()));
    fs.push(Field::S(r.component_name.clone()));
    fs.push(Field::S(r.procurement_id.clone()));
    fs.push(Field::S(r.order_id.clone()));
    fs.push(Field::U64(r.total_components_required));
    fs.push(Field::U64(r.components_roundof));
    fs.push(Field::S(r.status.clone()));
    fs.push(Field::U64(r.order_date.year));
    fs.push(Field::U64(r.order_date.month));
    fs.push(Field::U64(r.order_date.day));
    fs.push(Field::U64(r.expected_delivery_date.year));
    fs.push(Field::U64(r.expected_delivery_date.month));
    fs.push(Field::U64(r.expected_delivery_date.day));
    let out = enc_fields(&fs);
    proof {
        assert(views_of(fs@) =~= suppliers_orders_fields(r@));
    }
    out
}


/// The field list of one orders record.
pub open spec fn orders_fields(v: OrdersV) -> Seq<FieldV> {
    seq![
        FieldV::S(v.order_id),
        FieldV::OptSList(v.procurements),
        FieldV::OptSList(v.supplier_orders),
        FieldV::U64(v.quanity_ordered),
        FieldV::S(v.product_id),
        FieldV::S(v.product),
        FieldV::U64(v.quantity_required),
        FieldV::U64(v.expected_delivery_date.year),
        FieldV::U64(v.expected_delivery_date.month),
        FieldV::U64(v.expected_delivery_date.day),
        FieldV::U64(v.production_start_date.year),
        FieldV::U64(v.production_start_date.month),
        FieldV::U64(v.production_start_date.day),
        FieldV::U64(v.expected_ship_date.year),
        FieldV::U64(v.expected_ship_date.month),
        FieldV::U64(v.expected_ship_date.day),
        FieldV::S(v.recid),
        FieldV::S(v.order_status),
        FieldV::U64(v.total_components_booked),
        FieldV::OptS(v.components_notes),
        FieldV::U64(v.components_required),
        FieldV::OptU64List(v.total_gap_components),
        FieldV::OptSList(v.components),
    ]
}

/// All length prefixes of the record fit their `u64` slots.
pub open spec fn orders_bounded(v: OrdersV) -> bool {
    fields_bounded(orders_fields(v))
}

/// The stored encoding of one orders record.
pub open spec fn spec_enc_orders(v: OrdersV) -> Seq<u8> {
    spec_enc_fields(orders_fields(v))
}

/// Decoding is the partial inverse of encoding.
pub open spec fn spec_dec_orders(b: Seq<u8>) -> Option<OrdersV> {
    if exists|v: OrdersV| orders_bounded(v) && spec_enc_orders(v) == b {
        Some(choose|v: OrdersV| orders_bounded(v) && spec_enc_orders(v) == b)
    } else {
        None
    }
}

proof fn lemma_orders_fields_inj(v1: OrdersV, v2: OrdersV)
    requires
        orders_fields(v1) == orders_fields(v2),
    ensures
        v1 == v2,
{
    assert(orders_fields(v1)[0] == orders_fields(v2)[0]);
    assert(orders_fields(v1)[1] == orders_fields(v2)[1]);
    assert(orders_fields(v1)[2] == orders_fields(v2)[2]);
    assert(orders_fields(v1)[3] == orders_fields(v2)[3]);
    assert(orders_fields(v1)[4] == orders_fields(v2)[4]);
    assert(orders_fields(v1)[5] == orders_fields(v2)[5]);
    assert(orders_fields(v1)[6] == orders_fields(v2)[6]);
    assert(orders_fields(v1)[7] == orders_fields(v2)[7]);
    assert(orders_fields(v1)[8] == orders_fields(v2)[8]);
    assert(orders_fields(v1)[9] == orders_fields(v2)[9]);
    assert(orders_fields(v1)[10] == orders_fields(v2)[10]);
    assert(orders_fields(v1)[11] == orders_fields(v2)[11]);
    assert(orders_fields(v1)[12] == orders_fields(v2)[12]);
    assert(orders_fields(v1)[13] == orders_fields(v2)[13]);
    assert(orders_fields(v1)[14] == orders_fields(v2)[14]);
    assert(orders_fields(v1)[15] == orders_fields(v2)[15]);
    assert(orders_fields(v1)[16] == orders_fields(v2)[16]);
    assert(orders_fields(v1)[17] == orders_fields(v2)[17]);
    assert(orders_fields(v1)[18] == orders_fields(v2)[18]);
    assert(orders_fields(v1)[19] == orders_fields(v2)[19]);
    assert(orders_fields(v1)[20] == orders_fields(v2)[20]);
    assert(orders_fields(v1)[21] == orders_fields(v2)[21]);
    assert(orders_fields(v1)[22] == orders_fields(v2)[22]);
}

/// Decoding inverts encoding on every bounded orders record value.
pub proof fn lemma_orders_round_trip(v: OrdersV)
    requires
        orders_bounded(v),
    ensures
        spec_dec_orders(spec_enc_orders(v)) == Some(v),
{
    let b = spec_enc_orders(v);
    assert(orders_bounded(v) && spec_enc_orders(v) == b);
    let w = choose|w: OrdersV| orders_bounded(w) && spec_enc_orders(w) == b;
    lemma_enc_fields_inj(orders_fields(w), orders_fields(v));
    lemma_orders_fields_inj(w, v);
}


/// Encodes one orders record for storage.
pub fn enc_orders(r: &Orders) -> (out: Vec<u8>)
    ensures
        out@ == spec_enc_orders(r@),
        orders_bounded(r@),
{
    let mut fs: Vec<Field> = Vec::new();
    fs.push(Field::S(r.order_id.clone()));
    match &r.procurements {
        Option::Some(l) => fs.push(Field::OptSList(Some(clone_str_vec(l)))),
        Option::None => fs.push(Field::OptSList(None)),
    }
    match &r.supplier_orders {
        Option::Some(l) => fs.push(Field::OptSList(Some(clone_str_vec(l)))),
        Option::None => fs.push(Field::OptSList(None)),
    }
    fs.push(Field::U64(r.quanity_ordered));
    fs.push(Field::S(r.product_id.clone()));
    fs.push(Field::S(r.product.clone()));
    fs.push(Field::U64(r.quantity_required));
    fs.push(Field::U64(r.expected_delivery_date.year));
    fs.push(Field::U64(r.expected_delivery_date.month));
    fs.push(Field::U64(r.expected_delivery_date.day));
    fs.push(Field::U64(r.production_start_date.year));
    fs.push(Field::U64(r.production_start_date.month));
    fs.push(Field::U64(r.production_start_date.day));
    fs.push(Field::U64(r.expected_ship_date.year));
    fs.push(Field::U64(r.expected_ship_date.month));
    fs.push(Field::U64(r.expected_ship_date.day));
    fs.push(Field::S(r.recid.clone()));
    fs.push(Field::S(r.order_status.clone()));
    fs.push(Field::U64(r.total_components_booked));
    match &r.components_notes {
        Option::Some(s) => fs.push(Field::OptS(Some(s.clone()))),
        Option::None => fs.push(Field::OptS(None)),
    }
    fs.push(Field::U64(r.components_required));
    match &r.total_gap_components {
        Option::Some(l) => fs.push(Field::OptU64List(Some(copy_u64_vec(l)))),
        Option::None => fs.push(Field::OptU64List(None)),
    }
    match &r.components {
        Option::Some(l) => fs.push(Field::OptSList(Some(clone_str_vec(l)))),
        Option::None => fs.push(Field::OptSList(None)),
    }
    let out = enc_fields(&fs);
    proof {
        assert(views_of(fs@) =~= orders_fields(r@));
    }
    out
}


/// The field list of one procurement record.
pub open spec fn procurement_fields(v: ProcurementV) -> Seq<FieldV> {
    seq![
        FieldV::S(v.procurement_id),
        FieldV::S(v.order_id),
        FieldV::OptSList(v.components),
        FieldV::U64(v.quantity),
        FieldV::S(v.status),
        FieldV::S(v.product),
    ]
}

/// All length prefixes of the record fit their `u64` slots.
pub open spec fn procurement_bounded(v: ProcurementV) -> bool {
    fields_bounded(procurement_fields(v))
}

/// The stored encoding of one procurement record.
pub open spec fn spec_enc_procurement(v: ProcurementV) -> Seq<u8> {
    spec_enc_fields(procurement_fields(v))
}

/// Decoding is the partial inverse of encoding.
pub open spec fn spec_dec_procurement(b: Seq<u8>) -> Option<ProcurementV> {
    if exists|v: ProcurementV| procurement_bounded(v) && spec_enc_procurement(v) == b {
        Some(choose|v: ProcurementV| procurement_bounded(v) && spec_enc_procurement(v) == b)
    } else {
        None
    }
}

proof fn lemma_procurement_fields_inj(v1: ProcurementV, v2: ProcurementV)
    requires
        procurement_fields(v1) == procurement_fields(v2),
    ensures
        v1 == v2,
{
    assert(procurement_fields(v1)[0] == procurement_fields(v2)[0]);
    assert(procurement_fields(v1)[1] == procurement_fields(v2)[1]);
    assert(procurement_fields(v1)[2] == procurement_fields(v2)[2]);
    assert(procurement_fields(v1)[3] == procurement_fields(v2)[3]);
    assert(procurement_fields(v1)[4] == procurement_fields(v2)[4]);
    assert(procurement_fields(v1)[5] == procurement_fields(v2)[5]);
}

/// Decoding inverts encoding on every bounded procurement record value.
pub proof fn lemma_procurement_round_trip(v: ProcurementV)
    requires
        procurement_bounded(v),
    ensures
        spec_dec_procurement(spec_enc_procurement(v)) == Some(v),
{
    let b = spec_enc_procurement(v);
    assert(procurement_bounded(v) && spec_enc_procurement(v) == b);
    let w = choose|w: ProcurementV| procurement_bounded(w) && spec_enc_procurement(w) == b;
    lemma_enc_fields_inj(procurement_fields(w), procurement_fields(v));
    lemma_procurement_fields_inj(w, v);
}


/// Encodes one procurement record for storage.
pub fn enc_procurement(r: &Procurement) -> (out: Vec<u8>)
    ensures
        out@ == spec_enc_procurement(r@),
        procurement_bounded(r@),
{
    let mut fs: Vec<Field> = Vec::new();
    fs.push(Field::S(r.procurement_id.clone()));
    fs.push(Field::S(r.order_id.clone()));
    match &r.components {
        Option::Some(l) => fs.push(Field::OptSList(Some(clone_str_vec(l)))),
        Option::None => fs.push(Field::OptSList(None)),
    }
    fs.push(Field::U64(r.quantity));
    fs.push(Field::S(r.status.clone()));
    fs.push(Field::S(r.product.clone()));
    let out = enc_fields(&fs);
    proof {
        assert(views_of(fs@) =~= procurement_fields(r@));
    }
    out
}


/// The field list of one assembly_time_line record.
pub open spec fn assembly_time_line_fields(v: AssemblyTimeLineV) -> Seq<FieldV> {
    seq![
        FieldV::S(v.assembly_id),
        FieldV::S(v.order),
        FieldV::S(v.product),
        FieldV::SList(v.movements),
        FieldV::U64(v.components_required),
        FieldV::U64(v.total_components_booked),
        FieldV::SList(v.components),
        FieldV::OptU64List(v.total_gap_components),
        FieldV::S(v.assembly_location),
        FieldV::U64(v.components_received_date.year),
        FieldV::U64(v.components_received_date.month),
        FieldV::U64(v.components_received_date.day),
        FieldV::U64(v.assembly_start_date.year),
        FieldV::U64(v.assembly_start_date.month),
        FieldV::U64(v.assembly_start_date.day),
        FieldV::U64(v.assembly_end_date.year),
        FieldV::U64(v.assembly_end_date.month),
        FieldV::U64(v.assembly_end_date.day),
        FieldV::S(v.assembly_status),
        FieldV::U64(v.total_duration),
        FieldV::OptS(v.assembly_notes),
    ]
}

/// All length prefixes of the record fit their `u64` slots.
pub open spec fn assembly_time_line_bounded(v: AssemblyTimeLineV) -> bool {
    fields_bounded(assembly_time_line_fields(v))
}

/// The stored encoding of one assembly_time_line record.
pub open spec fn spec_enc_assembly_time_line(v: AssemblyTimeLineV) -> Seq<u8> {
    spec_enc_fields(assembly_time_line_fields(v))
}

/// Decoding is the partial inverse of encoding.
pub open spec fn spec_dec_assembly_time_line(b: Seq<u8>) -> Option<AssemblyTimeLineV> {
    if exists|v: AssemblyTimeLineV| assembly_time_line_bounded(v) && spec_enc_assembly_time_line(v) == b {
        Some(choose|v: AssemblyTimeLineV| assembly_time_line_bounded(v) && spec_enc_assembly_time_line(v) == b)
    } else {
        None
    }
}

proof fn lemma_assembly_time_line_fields_inj(v1: AssemblyTimeLineV, v2: AssemblyTimeLineV)
    requires
        assembly_time_line_fields(v1) == assembly_time_line_fields(v2),
    ensures
        v1 == v2,
{
    assert(assembly_time_line_fields(v1)[0] == assembly_time_line_fields(v2)[0]);
    assert(assembly_time_line_fields(v1)[1] == assembly_time_line_fields(v2)[1]);
    assert(assembly_time_line_fields(v1)[2] == assembly_time_line_fields(v2)[2]);
    assert(assembly_time_line_fields(v1)[3] == assembly_time_line_fields(v2)[3]);
    assert(assembly_time_line_fields(v1)[4] == assembly_time_line_fields(v2)[4]);
    assert(assembly_time_line_fields(v1)[5] == assembly_time_line_fields(v2)[5]);
    assert(assembly_time_line_fields(v1)[6] == assembly_time_line_fields(v2)[6]);
    assert(assembly_time_line_fields(v1)[7] == assembly_time_line_fields(v2)[7]);
    assert(assembly_time_line_fields(v1)[8] == assembly_time_line_fields(v2)[8]);
    assert(assembly_time_line_fields(v1)[9] == assembly_time_line_fields(v2)[9]);
    assert(assembly_time_line_fields(v1)[10] == assembly_time_line_fields(v2)[10]);
    assert(assembly_time_line_fields(v1)[11] == assembly_time_line_fields(v2)[11]);
    assert(assembly_time_line_fields(v1)[12] == assembly_time_line_fields(v2)[12]);
    assert(assembly_time_line_fields(v1)[13] == assembly_time_line_fields(v2)[13]);
    assert(assembly_time_line_fields(v1)[14] == assembly_time_line_fields(v2)[14]);
    assert(assembly_time_line_fields(v1)[15] == assembly_time_line_fields(v2)[15]);
    assert(assembly_time_line_fields(v1)[16] == assembly_time_line_fields(v2)[16]);
    assert(assembly_time_line_fields(v1)[17] == assembly_time_line_fields(v2)[17]);
    assert(assembly_time_line_fields(v1)[18] == assembly_time_line_fields(v2)[18]);
    assert(assembly_time_line_fields(v1)[19] == assembly_time_line_fields(v2)[19]);
    assert(assembly_time_line_fields(v1)[20] == assembly_time_line_fields(v2)[20]);
}

/// Decoding inverts encoding on every bounded assembly_time_line record value.
pub proof fn lemma_assembly_time_line_round_trip(v: AssemblyTimeLineV)
    requires
        assembly_time_line_bounded(v),
    ensures
        spec_dec_assembly_time_line(spec_enc_assembly_time_line(v)) == Some(v),
{
    let b = spec_enc_assembly_time_line(v);
    assert(assembly_time_line_bounded(v) && spec_enc_assembly_time_line(v) == b);
    let w = choose|w: AssemblyTimeLineV| assembly_time_line_bounded(w) && spec_enc_assembly_time_line(w) == b;
    lemma_enc_fields_inj(assembly_time_line_fields(w), assembly_time_line_fields(v));
    lemma_assembly_time_line_fields_inj(w, v);
}


/// Encodes one assembly_time_line record for storage.
pub fn enc_assembly_time_line(r: &AssemblyTimeLine) -> (out: Vec<u8>)
    ensures
        out@ == spec_enc_assembly_time_line(r@),
        assembly_time_line_bounded(r@),
{
    let mut fs: Vec<Field> = Vec::new();
    fs.push(Field::S(r.assembly_id.clone()));
    fs.push(Field::S(r.order.clone()));
    fs.push(Field::S(r.product.clone()));
    fs.push(Field::SList(clone_str_vec(&r.movements)));
    fs.push(Field::U64(r.components_required));
    fs.push(Field::U64(r.total_components_booked));
    fs.push(Field::SList(clone_str_vec(&r.components)));
    match &r.total_gap_components {
        Option::Some(l) => fs.push(Field::OptU64List(Some(copy_u64_vec(l)))),
        Option::None => fs.push(Field::OptU64List(None)),
    }
    fs.push(Field::S(r.assembly_location.clone()));
    fs.push(Field::U64(r.components_received_date.year));
    fs.push(Field::U64(r.components_received_date.month));
    fs.push(Field::U64(r.components_received_date.day));
    fs.push(Field::U64(r.assembly_start_date.year));
    fs.push(Field::U64(r.assembly_start_date.month));
    fs.push(Field::U64(r.assembly_start_date.day));
    fs.push(Field::U64(r.assembly_end_date.year));
    fs.push(Field::U64(r.assembly_end_date.month));
    fs.push(Field::U64(r.assembly_end_date.day));
    fs.push(Field::S(r.assembly_status.clone()));
    fs.push(Field::U64(r.total_duration));
    match &r.assembly_notes {
        Option::Some(s) => fs.push(Field::OptS(Some(s.clone()))),
        Option::None => fs.push(Field::OptS(None)),
    }
    let out = enc_fields(&fs);
    proof {
        assert(views_of(fs@) =~= assembly_time_line_fields(r@));
    }
    out
}


/// The field list of one production_rate record.
pub open spec fn production_rate_fields(v: ProductionRateV) -> Seq<FieldV> {
    seq![
        FieldV::S(v.prodction_rate_id),
        FieldV::S(v.watch_model_id),
        FieldV::U64(v.assembly_time_per_watch),
        FieldV::U64(v.daily_production_capacity),
    ]
}

/// All length prefixes of the record fit their `u64` slots.
pub open spec fn production_rate_bounded(v: ProductionRateV) -> bool {
    fields_bounded(production_rate_fields(v))
}

/// The stored encoding of one production_rate record.
pub open spec fn spec_enc_production_rate(v: ProductionRateV) -> Seq<u8> {
    spec_enc_fields(production_rate_fields(v))
}

/// Decoding is the partial inverse of encoding.
pub open spec fn spec_dec_production_rate(b: Seq<u8>) -> Option<ProductionRateV> {
    if exists|v: ProductionRateV| production_rate_bounded(v) && spec_enc_production_rate(v) == b {
        Some(choose|v: ProductionRateV| production_rate_bounded(v) && spec_enc_production_rate(v) == b)
    } else {
        None
    }
}

proof fn lemma_production_rate_fields_inj(v1: ProductionRateV, v2: ProductionRateV)
    requires
        production_rate_fields(v1) == production_rate_fields(v2),
    ensures
        v1 == v2,
{
    assert(production_rate_fields(v1)[0] == production_rate_fields(v2)[0]);
    assert(production_rate_fields(v1)[1] == production_rate_fields(v2)[1]);
    assert(production_rate_fields(v1)[2] == production_rate_fields(v2)[2]);
    assert(production_rate_fields(v1)[3] == production_rate_fields(v2)[3]);
}

/// Decoding inverts encoding on every bounded production_rate record value.
pub proof fn lemma_production_rate_round_trip(v: ProductionRateV)
    requires
        production_rate_bounded(v),
    ensures
        spec_dec_production_rate(spec_enc_production_rate(v)) == Some(v),
{
    let b = spec_enc_production_rate(v);
    assert(production_rate_bounded(v) && spec_enc_production_rate(v) == b);
    let w = choose|w: ProductionRateV| production_rate_bounded(w) && spec_enc_production_rate(w) == b;
    lemma_enc_fields_inj(production_rate_fields(w), production_rate_fields(v));
    lemma_production_rate_fields_inj(w, v);
}


/// Encodes one production_rate record for storage.
pub fn enc_production_rate(r: &ProductionRate) -> (out: Vec<u8>)
    ensures
        out@ == spec_enc_production_rate(r@),
        production_rate_bounded(r@),
{
    let mut fs: Vec<Field> = Vec::new();
    fs.push(Field::S(r.prodction_rate_id.clone()));
    fs.push(Field::S(r.watch_model_id.clone()));
    fs.push(Field::U64(r.assembly_time_per_watch));
    fs.push(Field::U64(r.daily_production_capacity));
    let out = enc_fields(&fs);
    proof {
        assert(views_of(fs@) =~= production_rate_fields(r@));
    }
    out
}


/// The field list of one recorder_point record.
pub open spec fn recorder_point_fields(v: RecorderPointV) -> Seq<FieldV> {
    seq![
        FieldV::S(v.recorder_point_id),
        FieldV::S(v.component_name),
        FieldV::U64(v.supplier_lead_time),
        FieldV::U64(v.assumed_daily_usage),
        FieldV::U64(v.lead_time_demand),
        FieldV::U64(v.safety_stock),
        FieldV::U64(v.reorder_point),
        FieldV::B(v.need_to_order),
    ]
}

/// All length prefixes of the record fit their `u64` slots.
pub open spec fn recorder_point_bounded(v: RecorderPointV) -> bool {
    fields_bounded(recorder_point_fields(v))
}

/// The stored encoding of one recorder_point record.
pub open spec fn spec_enc_recorder_point(v: RecorderPointV) -> Seq<u8> {
    spec_enc_fields(recorder_point_fields(v))
}

/// Decoding is the partial inverse of encoding.
pub open spec fn spec_dec_recorder_point(b: Seq<u8>) -> Option<RecorderPointV> {
    if exists|v: RecorderPointV| recorder_point_bounded(v) && spec_enc_recorder_point(v) == b {
        Some(choose|v: RecorderPointV| recorder_point_bounded(v) && spec_enc_recorder_point(v) == b)
    } else {
        None
    }
}

proof fn lemma_recorder_point_fields_inj(v1: RecorderPointV, v2: RecorderPointV)
    requires
        recorder_point_fields(v1) == recorder_point_fields(v2),
    ensures
        v1 == v2,
{
    assert(recorder_point_fields(v1)[0] == recorder_point_fields(v2)[0]);
    assert(recorder_point_fields(v1)[1] == recorder_point_fields(v2)[1]);
    assert(recorder_point_fields(v1)[2] == recorder_point_fields(v2)[2]);
    assert(recorder_point_fields(v1)[3] == recorder_point_fields(v2)[3]);
    assert(recorder_point_fields(v1)[4] == recorder_point_fields(v2)[4]);
    assert(recorder_point_fields(v1)[5] == recorder_point_fields(v2)[5]);
    assert(recorder_point_fields(v1)[6] == recorder_point_fields(v2)[6]);
    assert(recorder_point_fields(v1)[7] == recorder_point_fields(v2)[7]);
}

/// Decoding inverts encoding on every bounded recorder_point record value.
pub proof fn lemma_recorder_point_round_trip(v: RecorderPointV)
    requires
        recorder_point_bounded(v),
    ensures
        spec_dec_recorder_point(spec_enc_recorder_point(v)) == Some(v),
{
    let b = spec_enc_recorder_point(v);
    assert(recorder_point_bounded(v) && spec_enc_recorder_point(v) == b);
    let w = choose|w: RecorderPointV| recorder_point_bounded(w) && spec_enc_recorder_point(w) == b;
    lemma_enc_fields_inj(recorder_point_fields(w), recorder_point_fields(v));
    lemma_recorder_point_fields_inj(w, v);
}


/// Encodes one recorder_point record for storage.
pub fn enc_recorder_point(r: &RecorderPoint) -> (out: Vec<u8>)
    ensures
        out@ == spec_enc_recorder_point(r@),
        recorder_point_bounded(r@),
{
    let mut fs: Vec<Field> = Vec::new();
    fs.push(Field::S(r.recorder_point_id.clone()));
    fs.push(Field::S(r.component_name.clone()));
    fs.push(Field::U64(r.supplier_lead_time));
    fs.push(Field::U64(r.assumed_daily_usage));
    fs.push(Field::U64(r.lead_time_demand));
    fs.push(Field::U64(r.safety_stock));
    fs.push(Field::U64(r.reorder_point));
    fs.push(Field::B(r.need_to_order));
    let out = enc_fields(&fs);
    proof {
        assert(views_of(fs@) =~= recorder_point_fields(r@));
    }
    out
}


/// The field list of one watches record.
pub open spec fn watches_fields(v: WatchesV) -> Seq<FieldV> {
    seq![
        FieldV::S(v.watch_id),
        FieldV::S(v.watch_model_id),
        FieldV::S(v.brand),
        FieldV::S(v.component_id),
        FieldV::U64(v.required_quantity),
    ]
}

/// All length prefixes of the record fit their `u64` slots.
pub open spec fn watches_bounded(v: WatchesV) -> bool {
    fields_bounded(watches_fields(v))
}

/// The stored encoding of one watches record.
pub open spec fn spec_enc_watches(v: WatchesV) -> Seq<u8> {
    spec_enc_fields(watches_fields(v))
}

/// Decoding is the partial inverse of encoding.
pub open spec fn spec_dec_watches(b: Seq<u8>) -> Option<WatchesV> {
    if exists|v: WatchesV| watches_bounded(v) && spec_enc_watches(v) == b {
        Some(choose|v: WatchesV| watches_bounded(v) && spec_enc_watches(v) == b)
    } else {
        None
    }
}

proof fn lemma_watches_fields_inj(v1: WatchesV, v2: WatchesV)
    requires
        watches_fields(v1) == watches_fields(v2),
    ensures
        v1 == v2,
{
    assert(watches_fields(v1)[0] == watches_fields(v2)[0]);
    assert(watches_fields(v1)[1] == watches_fields(v2)[1]);
    assert(watches_fields(v1)[2] == watches_fields(v2)[2]);
    assert(watches_fields(v1)[3] == watches_fields(v2)[3]);
    assert(watches_fields(v1)[4] == watches_fields(v2)[4]);
}

/// Decoding inverts encoding on every bounded watches record value.
pub proof fn lemma_watches_round_trip(v: WatchesV)
    requires
        watches_bounded(v),
    ensures
        spec_dec_watches(spec_enc_watches(v)) == Some(v),
{
    let b = spec_enc_watches(v);
    assert(watches_bounded(v) && spec_enc_watches(v) == b);
    let w = choose|w: WatchesV| watches_bounded(w) && spec_enc_watches(w) == b;
    lemma_enc_fields_inj(watches_fields(w), watches_fields(v));
    lemma_watches_fields_inj(w, v);
}


/// Encodes one watches record for storage.
pub fn enc_watches(r: &Watches) -> (out: Vec<u8>)
    ensures
        out@ == spec_enc_watches(r@),
        watches_bounded(r@),
{
    let mut fs: Vec<Field> = Vec::new();
    fs.push(Field::S(r.watch_id.clone()));
    fs.push(Field::S(r.watch_model_id.clone()));
    fs.push(Field::S(r.brand.clone()));
    fs.push(Field::S(r.component_id.clone()));
    fs.push(Field::U64(r.required_quantity));
    let out = enc_fields(&fs);
    proof {
        assert(views_of(fs@) =~= watches_fields(r@));
    }
    out
}


/// Decodes one stored products record.
pub fn dec_products(b: &Vec<u8>) -> (r: Option<Products>)
    ensures
        match r {
            Some(x) => spec_dec_products(b@) == Some(x@),
            None => spec_dec_products(b@) is None,
        },
{
    let mut fs = match dec_fields(b) {
        Some(fs) => fs,
        None => {
            proof {
                if spec_dec_products(b@) is Some {
                    let w = choose|v: ProductsV| products_bounded(v) && spec_enc_products(v) == b@;
                    assert(spec_enc_fields(products_fields(w)) == b@);
                    assert(false);
                }
            }
            return None;
        },
    };
    let ghost fs0_vec = fs@;
    let ghost fs0 = views_of(fs@);
    if fs.len() != 14 {
        proof {
            if spec_dec_products(b@) is Some {
                let w = choose|v: ProductsV| products_bounded(v) && spec_enc_products(v) == b@;
                assert(spec_enc_fields(products_fields(w)) == b@);
                assert(products_fields(w) == fs0);
                assert(products_fields(w).len() == 14);
                assert(fs0.len() == fs0_vec.len());
                assert(false);
            }
        }
        return None;
    }
    proof {
        assert(fs@ =~= fs0_vec.skip(0int));
    }
    let fx = fs.remove(0);
    proof {
        assert(fs@ =~= fs0_vec.skip(1int));
        assert(fx == fs0_vec[0]);
        assert(fx.v() == fs0[0]);
    }
    let product_name = match fx {
        Field::S(x) => x,
        _ => {
                proof {
                    if spec_dec_products(b@) is Some {
                        let w = choose|v: ProductsV| products_bounded(v) && spec_enc_products(v) == b@;
                        assert(spec_enc_fields(products_fields(w)) == b@);
                        assert(products_fields(w) == fs0);
                        assert(products_fields(w)[0] == fs0[0]);
                        assert(false);
                    }
                }
                return None;
        },
    };
    let fx = fs.remove(0);
    proof {
        assert(fs@ =~= fs0_vec.skip(2int));
        assert(fx == fs0_vec[1]);
        assert(fx.v() == fs0[1]);
    }
    let product_id = match fx {
        Field::S(x) => x,
        _ => {
                proof {
                    if spec_dec_products(b@) is Some {
                        let w = choose|v: ProductsV| products_bounded(v) && spec_enc_products(v) == b@;
                        assert(spec_enc_fields(products_fields(w)) == b@);
                        assert(products_fields(w) == fs0);
                        assert(products_fields(w)[1] == fs0[1]);
                        assert(false);
                    }
                }
                return None;
        },
    };
    let fx = fs.remove(0);
    proof {
        assert(fs@ =~= fs0_vec.skip(3int));
        assert(fx == fs0_vec[2]);
        assert(fx.v() == fs0[2]);
    }
    let components = match fx {
        Field::OptSList(x) => x,
        _ => {
                proof {
                    if spec_dec_products(b@) is Some {
                        let w = choose|v: ProductsV| products_bounded(v) && spec_enc_products(v) == b@;
                        assert(spec_enc_fields(products_fields(w)) == b@);
                        assert(products_fields(w) == fs0);
                        assert(products_fields(w)[2] == fs0[2]);
                        assert(false);
                    }
                }
                return None;
        },
    };
    let fx = fs.remove(0);
    proof {
        assert(fs@ =~= fs0_vec.skip(4int));
        assert(fx == fs0_vec[3]);
        assert(fx.v() == fs0[3]);
    }
    let cn = match fx {
        Field::U64(x) => x,
        _ => {
                proof {
                    if spec_dec_products(b@) is Some {
                        let w = choose|v: ProductsV| products_bounded(v) && spec_enc_products(v) == b@;
                        assert(spec_enc_fields(products_fields(w)) == b@);
                        assert(products_fields(w) == fs0);
                        assert(products_fields(w)[3] == fs0[3]);
                        assert(false);
                    }
                }
                return None;
        },
    };
    let fx = fs.remove(0);
    proof {
        assert(fs@ =~= fs0_vec.skip(5int));
        assert(fx == fs0_vec[4]);
        assert(fx.v() == fs0[4]);
    }
    let kling = match fx {
        Field::U64(x) => x,
        _ => {
                proof {
                    if spec_dec_products(b@) is Some {
                        let w = choose|v: ProductsV| products_bounded(v) && spec_enc_products(v) == b@;
                        assert(spec_enc_fields(products_fields(w)) == b@);
                        assert(products_fields(w) == fs0);
                        assert(products_fields(w)[4] == fs0[4]);
                        assert(false);
                    }
                }
                return None;
        },
    };
    let fx = fs.remove(0);
    proof {
        assert(fs@ =~= fs0_vec.skip(6int));
        assert(fx == fs0_vec[5]);
        assert(fx.v() == fs0[5]);
    }
    let st_jacob = match fx {
        Field::U64(x) => x,
        _ => {
                proof {
                    if spec_dec_products(b@) is Some {
                        let w = choose|v: ProductsV| products_bounded(v) && spec_enc_products(v) == b@;
                        assert(spec_enc_fields(products_fields(w)) == b@);
                        assert(products_fields(w) == fs0);
                        assert(products_fields(w)[5] == fs0[5]);
                        assert(false);
                    }
                }
                return None;
        },
    };
    let fx = fs.remove(0);
    proof {
        assert(fs@ =~= fs0_vec.skip(7int));
        assert(fx == fs0_vec[6]);
        assert(fx.v() == fs0[6]);
    }
    let wurenlos = match fx {
        Field::U64(x) => x,
        _ => {
                proof {
                    if spec_dec_products(b@) is Some {
                        let w = choose|v: ProductsV| products_bounded(v) && spec_enc_products(v) == b@;
                        assert(spec_enc_fields(products_fields(w)) == b@);
                        assert(products_fields(w) == fs0);
                        assert(products_fields(w)[6] == fs0[6]);
                        assert(false);
                    }
                }
                return None;
        },
    };
    let fx = fs.remove(0);
    proof {
        assert(fs@ =~= fs0_vec.skip(8int));
        assert(fx == fs0_vec[7]);
        assert(fx.v() == fs0[7]);
    }
    let wurenlos_sold = match fx {
        Field::U64(x) => x,
        _ => {
                proof {
                    if spec_dec_products(b@) is Some {
                        let w = choose|v: ProductsV| products_bounded(v) && spec_enc_products(v) == b@;
                        assert(spec_enc_fields(products_fields(w)) == b@);
                        assert(products_fields(w) == fs0);
                        assert(products_fields(w)[7] == fs0[7]);
                        assert(false);
                    }
                }
                return None;
        },
    };
    let fx = fs.remove(0);
    proof {
        assert(fs@ =~= fs0_vec.skip(9int));
        assert(fx == fs0_vec[8]);
        assert(fx.v() == fs0[8]);
    }
    let flf = match fx {
        Field::U64(x) => x,
        _ => {
                proof {
                    if spec_dec_products(b@) is Some {
                        let w = choose|v: ProductsV| products_bounded(v) && spec_enc_products(v) == b@;
                        assert(spec_enc_fields(products_fields(w)) == b@);
                        assert(products_fields(w) == fs0);
                        assert(products_fields(w)[8] == fs0[8]);
                        assert(false);
                    }
                }
                return None;
        },
    };
    let fx = fs.remove(0);
    proof {
        assert(fs@ =~= fs0_vec.skip(10int));
        assert(fx == fs0_vec[9]);
        assert(fx.v() == fs0[9]);
    }
    let in_transit = match fx {
        Field::U64(x) => x,
        _ => {
                proof {
                    if spec_dec_products(b@) is Some {
                        let w = choose|v: ProductsV| products_bounded(v) && spec_enc_products(v) == b@;
                        assert(spec_enc_fields(products_fields(w)) == b@);
                        assert(products_fields(w) == fs0);
                        assert(products_fields(w)[9] == fs0[9]);
                        assert(false);
                    }
                }
                return None;
        },
    };
    let fx = fs.remove(0);
    proof {
        assert(fs@ =~= fs0_vec.skip(11int));
        assert(fx == fs0_vec[10]);
        assert(fx.v() == fs0[10]);
    }
    let total_available = match fx {
        Field::U64(x) => x,
        _ => {
                proof {
                    if spec_dec_products(b@) is Some {
                        let w = choose|v: ProductsV| products_bounded(v) && spec_enc_products(v) == b@;
                        assert(spec_enc_fields(products_fields(w)) == b@);
                        assert(products_fields(w) == fs0);
                        assert(products_fields(w)[10] == fs0[10]);
                        assert(false);
                    }
                }
                return None;
        },
    };
    let fx = fs.remove(0);
    proof {
        assert(fs@ =~= fs0_vec.skip(12int));
        assert(fx == fs0_vec[11]);
        assert(fx.v() == fs0[11]);
    }
    let reserver_for_orders = match fx {
        Field::U64(x) => x,
        _ => {
                proof {
                    if spec_dec_products(b@) is Some {
                        let w = choose|v: ProductsV| products_bounded(v) && spec_enc_products(v) == b@;
                        assert(spec_enc_fields(products_fields(w)) == b@);
                        assert(products_fields(w) == fs0);
                        assert(products_fields(w)[11] == fs0[11]);
                        assert(false);
                    }
                }
                return None;
        },
    };
    let fx = fs.remove(0);
    proof {
        assert(fs@ =~= fs0_vec.skip(13int));
        assert(fx == fs0_vec[12]);
        assert(fx.v() == fs0[12]);
    }
    let waste = match fx {
        Field::U64(x) => x,
        _ => {
                proof {
                    if spec_dec_products(b@) is Some {
                        let w = choose|v: ProductsV| products_bounded(v) && spec_enc_products(v) == b@;
                        assert(spec_enc_fields(products_fields(w)) == b@);
                        assert(products_fields(w) == fs0);
                        assert(products_fields(w)[12] == fs0[12]);
                        assert(false);
                    }
                }
                return None;
        },
    };
    let fx = fs.remove(0);
    proof {
        assert(fs@ =~= fs0_vec.skip(14int));
        assert(fx == fs0_vec[13]);
        assert(fx.v() == fs0[13]);
    }
    let customer = match fx {
        Field::U64(x) => x,
        _ => {
                proof {
                    if spec_dec_products(b@) is Some {
                        let w = choose|v: ProductsV| products_bounded(v) && spec_enc_products(v) == b@;
                        assert(spec_enc_fields(products_fields(w)) == b@);
                        assert(products_fields(w) == fs0);
                        assert(products_fields(w)[13] == fs0[13]);
                        assert(false);
                    }
                }
                return None;
        },
    };
    let rec = Products { product_name, product_id, components, cn, kling, st_jacob, wurenlos, wurenlos_sold, flf, in_transit, total_available, reserver_for_orders, waste, customer };
    proof {
        assert(products_fields(rec@)[0] == fs0[0]);
        assert(products_fields(rec@)[1] == fs0[1]);
        assert(products_fields(rec@)[2] == fs0[2]);
        assert(products_fields(rec@)[3] == fs0[3]);
        assert(products_fields(rec@)[4] == fs0[4]);
        assert(products_fields(rec@)[5] == fs0[5]);
        assert(products_fields(rec@)[6] == fs0[6]);
        assert(products_fields(rec@)[7] == fs0[7]);
        assert(products_fields(rec@)[8] == fs0[8]);
        assert(products_fields(rec@)[9] == fs0[9]);
        assert(products_fields(rec@)[10] == fs0[10]);
        assert(products_fields(rec@)[11] == fs0[11]);
        assert(products_fields(rec@)[12] == fs0[12]);
        assert(products_fields(rec@)[13] == fs0[13]);
        assert(products_fields(rec@) =~= fs0);
        assert(spec_enc_products(rec@) == b@);
        assert(products_bounded(rec@));
        lemma_products_round_trip(rec@);
    }
    Some(rec)
}

/// Decodes one stored components record.
pub fn dec_components(b: &Vec<u8>) -> (r: Option<Components>)
    ensures
        match r {
            Some(x) => spec_dec_components(b@) == Some(x@),
            None => spec_dec_components(b@) is None,
        },
{
    let mut fs = match dec_fields(b) {
        Some(fs) => fs,
        None => {
            proof {
                if spec_dec_components(b@) is Some {
                    let w = choose|v: ComponentsV| components_bounded(v) && spec_enc_components(v) == b@;
                    assert(spec_enc_fields(components_fields(w)) == b@);
                    assert(false);
                }
            }
            return None;
        },
    };
    let ghost fs0_vec = fs@;
    let ghost fs0 = views_of(fs@);
    if fs.len() != 17 {
        proof {
            if spec_dec_components(b@) is Some {
                let w = choose|v: ComponentsV| components_bounded(v) && spec_enc_components(v) == b@;
                assert(spec_enc_fields(components_fields(w)) == b@);
                assert(components_fields(w) == fs0);
                assert(components_fields(w).len() == 17);
                assert(fs0.len() == fs0_vec.len());
                assert(false);
            }
        }
        return None;
    }
    proof {
        assert(fs@ =~= fs0_vec.skip(0int));
    }
    let fx = fs.remove(0);
    proof {
        assert(fs@ =~= fs0_vec.skip(1int));
        assert(fx == fs0_vec[0]);
        assert(fx.v() == fs0[0]);
    }
    let product_id = match fx {
        Field::S(x) => x,
        _ => {
                proof {
                    if spec_dec_components(b@) is Some {
                        let w = choose|v: ComponentsV| components_bounded(v) && spec_enc_components(v) == b@;
                        assert(spec_enc_fields(components_fields(w)) == b@);
                        assert(components_fields(w) == fs0);
                        assert(components_fields(w)[0] == fs0[0]);
                        assert(false);
                    }
                }
                return None;
        },
    };
    let fx = fs.remove(0);
    proof {
        assert(fs@ =~= fs0_vec.skip(2int));
        assert(fx == fs0_vec[1]);
        assert(fx.v() == fs0[1]);
    }
    let product_name = match fx {
        Field::S(x) => x,
        _ => {
                proof {
                    if spec_dec_components(b@) is Some {
                        let w = choose|v: ComponentsV| components_bounded(v) && spec_enc_components(v) == b@;
                        assert(spec_enc_fields(components_fields(w)) == b@);
                        assert(components_fields(w) == fs0);
                        assert(components_fields(w)[1] == fs0[1]);
                        assert(false);
                    }
                }
                return None;
        },
    };
    let fx = fs.remove(0);
    proof {
        assert(fs@ =~= fs0_vec.skip(3int));
        assert(fx == fs0_vec[2]);
        assert(fx.v() == fs0[2]);
    }
    let component_name = match fx {
        Field::S(x) => x,
        _ => {
                proof {
                    if spec_dec_components(b@) is Some {
                        let w = choose|v: ComponentsV| components_bounded(v) && spec_enc_components(v) == b@;
                        assert(spec_enc_fields(components_fields(w)) == b@);
                        assert(components_fields(w) == fs0);
                        assert(components_fields(w)[2] == fs0[2]);
                        assert(false);
                    }
                }
                return None;
        },
    };
    let fx = fs.remove(0);
    proof {
        assert(fs@ =~= fs0_vec.skip(4int));
        assert(fx == fs0_vec[3]);
        assert(fx.v() == fs0[3]);
    }
    let component_id = match fx {
        Field::S(x) => x,
        _ => {
                proof {
                    if spec_dec_components(b@) is Some {
                        let w = choose|v: ComponentsV| components_bounded(v) && spec_enc_components(v) == b@;
                        assert(spec_enc_fields(components_fields(w)) == b@);
                        assert(components_fields(w) == fs0);
                        assert(components_fields(w)[3] == fs0[3]);
                        assert(false);
                    }
                }
                return None;
        },
    };
    let fx = fs.remove(0);
    proof {
        assert(fs@ =~= fs0_vec.skip(5int));
        assert(fx == fs0_vec[4]);
        assert(fx.v() == fs0[4]);
    }
    let cn = match fx {
        Field::U64(x) => x,
        _ => {
                proof {
                    if spec_dec_components(b@) is Some {
                        let w = choose|v: ComponentsV| components_bounded(v) && spec_enc_components(v) == b@;
                        assert(spec_enc_fields(components_fields(w)) == b@);
                        assert(components_fields(w) == fs0);
                        assert(components_fields(w)[4] == fs0[4]);
                        assert(false);
                    }
                }
                return None;
        },
    };
    let fx = fs.remove(0);
    proof {
        assert(fs@ =~= fs0_vec.skip(6int));
        assert(fx == fs0_vec[5]);
        assert(fx.v() == fs0[5]);
    }
    let kling = match fx {
        Field::U64(x) => x,
        _ => {
                proof {
                    if spec_dec_components(b@) is Some {
                        let w = choose|v: ComponentsV| components_bounded(v) && spec_enc_components(v) == b@;
                        assert(spec_enc_fields(components_fields(w)) == b@);
                        assert(components_fields(w) == fs0);
                        assert(components_fields(w)[5] == fs0[5]);
                        assert(false);
                    }
                }
                return None;
        },
    };
    let fx = fs.remove(0);
    proof {
        assert(fs@ =~= fs0_vec.skip(7int));
        assert(fx == fs0_vec[6]);
        assert(fx.v() == fs0[6]);
    }
    let st_jacob = match fx {
        Field::U64(x) => x,
        _ => {
                proof {
                    if spec_dec_components(b@) is Some {
                        let w = choose|v: ComponentsV| components_bounded(v) && spec_enc_components(v) == b@;
                        assert(spec_enc_fields(components_fields(w)) == b@);
                        assert(components_fields(w) == fs0);
                        assert(components_fields(w)[6] == fs0[6]);
                        assert(false);
                    }
                }
                return None;
        },
    };
    let fx = fs.remove(0);
    proof {
        assert(fs@ =~= fs0_vec.skip(8int));
        assert(fx == fs0_vec[7]);
        assert(fx.v() == fs0[7]);
    }
    let wurenlos = match fx {
        Field::U64(x) => x,
        _ => {
                proof {
                    if spec_dec_components(b@) is Some {
                        let w = choose|v: ComponentsV| components_bounded(v) && spec_enc_components(v) == b@;
                        assert(spec_enc_fields(components_fields(w)) == b@);
                        assert(components_fields(w) == fs0);
                        assert(components_fields(w)[7] == fs0[7]);
                        assert(false);
                    }
                }
                return None;
        },
    };
    let fx = fs.remove(0);
    proof {
        assert(fs@ =~= fs0_vec.skip(9int));
        assert(fx == fs0_vec[8]);
        assert(fx.v() == fs0[8]);
    }
    let wurenlos_sold = match fx {
        Field::U64(x) => x,
        _ => {
                proof {
                    if spec_dec_components(b@) is Some {
                        let w = choose|v: ComponentsV| components_bounded(v) && spec_enc_components(v) == b@;
                        assert(spec_enc_fields(components_fields(w)) == b@);
                        assert(components_fields(w) == fs0);
                        assert(components_fields(w)[8] == fs0[8]);
                        assert(false);
                    }
                }
                return None;
        },
    };
    let fx = fs.remove(0);
    proof {
        assert(fs@ =~= fs0_vec.skip(10int));
        assert(fx == fs0_vec[9]);
        assert(fx.v() == fs0[9]);
    }
    let flf = match fx {
        Field::U64(x) => x,
        _ => {
                proof {
                    if spec_dec_components(b@) is Some {
                        let w = choose|v: ComponentsV| components_bounded(v) && spec_enc_components(v) == b@;
                        assert(spec_enc_fields(components_fields(w)) == b@);
                        assert(components_fields(w) == fs0);
                        assert(components_fields(w)[9] == fs0[9]);
                        assert(false);
                    }
                }
                return None;
        },
    };
    let fx = fs.remove(0);
    proof {
        assert(fs@ =~= fs0_vec.skip(11int));
        assert(fx == fs0_vec[10]);
        assert(fx.v() == fs0[10]);
    }
    let in_transit = match fx {
        Field::U64(x) => x,
        _ => {
                proof {
                    if spec_dec_components(b@) is Some {
                        let w = choose|v: ComponentsV| components_bounded(v) && spec_enc_components(v) == b@;
                        assert(spec_enc_fields(components_fields(w)) == b@);
                        assert(components_fields(w) == fs0);
                        assert(components_fields(w)[10] == fs0[10]);
                        assert(false);
                    }
                }
                return None;
        },
    };
    let fx = fs.remove(0);
    proof {
        assert(fs@ =~= fs0_vec.skip(12int));
        assert(fx == fs0_vec[11]);
        assert(fx.v() == fs0[11]);
    }
    let total_available = match fx {
        Field::U64(x) => x,
        _ => {
                proof {
                    if spec_dec_components(b@) is Some {
                        let w = choose|v: ComponentsV| components_bounded(v) && spec_enc_components(v) == b@;
                        assert(spec_enc_fields(components_fields(w)) == b@);
                        assert(components_fields(w) == fs0);
                        assert(components_fields(w)[11] == fs0[11]);
                        assert(false);
                    }
                }
                return None;
        },
    };
    let fx = fs.remove(0);
    proof {
        assert(fs@ =~= fs0_vec.skip(13int));
        assert(fx == fs0_vec[12]);
        assert(fx.v() == fs0[12]);
    }
    let ordered_surplus = match fx {
        Field::U64(x) => x,
        _ => {
                proof {
                    if spec_dec_components(b@) is Some {
                        let w = choose|v: ComponentsV| components_bounded(v) && spec_enc_components(v) == b@;
                        assert(spec_enc_fields(components_fields(w)) == b@);
                        assert(components_fields(w) == fs0);
                        assert(components_fields(w)[12] == fs0[12]);
                        assert(false);
                    }
                }
                return None;
        },
    };
    let fx = fs.remove(0);
    proof {
        assert(fs@ =~= fs0_vec.skip(14int));
        assert(fx == fs0_vec[13]);
        assert(fx.v() == fs0[13]);
    }
    let reserver_for_orders = match fx {
        Field::U64(x) => x,
        _ => {
                proof {
                    if spec_dec_components(b@) is Some {
                        let w = choose|v: ComponentsV| components_bounded(v) && spec_enc_components(v) == b@;
                        assert(spec_enc_fields(components_fields(w)) == b@);
                        assert(components_fields(w) == fs0);
                        assert(components_fields(w)[13] == fs0[13]);
                        assert(false);
                    }
                }
                return None;
        },
    };
    let fx = fs.remove(0);
    proof {
        assert(fs@ =~= fs0_vec.skip(15int));
        assert(fx == fs0_vec[14]);
        assert(fx.v() == fs0[14]);
    }
    let waste = match fx {
        Field::U64(x) => x,
        _ => {
                proof {
                    if spec_dec_components(b@) is Some {
                        let w = choose|v: ComponentsV| components_bounded(v) && spec_enc_components(v) == b@;
                        assert(spec_enc_fields(components_fields(w)) == b@);
                        assert(components_fields(w) == fs0);
                        assert(components_fields(w)[14] == fs0[14]);
                        assert(false);
                    }
                }
                return None;
        },
    };
    let fx = fs.remove(0);
    proof {
        assert(fs@ =~= fs0_vec.skip(16int));
        assert(fx == fs0_vec[15]);
        assert(fx.v() == fs0[15]);
    }
    let customer = match fx {
        Field::U64(x) => x,
        _ => {
                proof {
                    if spec_dec_components(b@) is Some {
                        let w = choose|v: ComponentsV| components_bounded(v) && spec_enc_components(v) == b@;
                        assert(spec_enc_fields(components_fields(w)) == b@);
                        assert(components_fields(w) == fs0);
                        assert(components_fields(w)[15] == fs0[15]);
                        assert(false);
                    }
                }
                return None;
        },
    };
    let fx = fs.remove(0);
    proof {
        assert(fs@ =~= fs0_vec.skip(17int));
        assert(fx == fs0_vec[16]);
        assert(fx.v() == fs0[16]);
    }
    let assembly_line = match fx {
        Field::U64(x) => x,
        _ => {
                proof {
                    if spec_dec_components(b@) is Some {
                        let w = choose|v: ComponentsV| components_bounded(v) && spec_enc_components(v) == b@;
                        assert(spec_enc_fields(components_fields(w)) == b@);
                        assert(components_fields(w) == fs0);
                        assert(components_fields(w)[16] == fs0[16]);
                        assert(false);
                    }
                }
                return None;
        },
    };
    let rec = Components { product_id, product_name, component_name, component_id, cn, kling, st_jacob, wurenlos, wurenlos_sold, flf, in_transit, total_available, ordered_surplus, reserver_for_orders, waste, customer, assembly_line };
    proof {
        assert(components_fields(rec@)[0] == fs0[0]);
        assert(components_fields(rec@)[1] == fs0[1]);
        assert(components_fields(rec@)[2] == fs0[2]);
        assert(components_fields(rec@)[3] == fs0[3]);
        assert(components_fields(rec@)[4] == fs0[4]);
        assert(components_fields(rec@)[5] == fs0[5]);
        assert(components_fields(rec@)[6] == fs0[6]);
        assert(components_fields(rec@)[7] == fs0[7]);
        assert(components_fields(rec@)[8] == fs0[8]);
        assert(components_fields(rec@)[9] == fs0[9]);
        assert(components_fields(rec@)[10] == fs0[10]);
        assert(components_fields(rec@)[11] == fs0[11]);
        assert(components_fields(rec@)[12] == fs0[12]);
        assert(components_fields(rec@)[13] == fs0[13]);
        assert(components_fields(rec@)[14] == fs0[14]);
        assert(components_fields(rec@)[15] == fs0[15]);
        assert(components_fields(rec@)[16] == fs0[16]);
        assert(components_fields(rec@) =~= fs0);
        assert(spec_enc_components(rec@) == b@);
        assert(components_bounded(rec@));
        lemma_components_round_trip(rec@);
    }
    Some(rec)
}

/// Decodes one stored movements record.
pub fn dec_movements(b: &Vec<u8>) -> (r: Option<Movements>)
    ensures
        match r {
            Some(x) => spec_dec_movements(b@) == Some(x@),
            None => spec_dec_movements(b@) is None,
        },
{
    let mut fs = match dec_fields(b) {
        Some(fs) => fs,
        None => {
            proof {
                if spec_dec_movements(b@) is Some {
                    let w = choose|v: MovementsV| movements_bounded(v) && spec_enc_movements(v) == b@;
                    assert(spec_enc_fields(movements_fields(w)) == b@);
                    assert(false);
                }
            }
            return None;
        },
    };
    let ghost fs0_vec = fs@;
    let ghost fs0 = views_of(fs@);
    if fs.len() != 14 {
        proof {
            if spec_dec_movements(b@) is Some {
                let w = choose|v: MovementsV| movements_bounded(v) && spec_enc_movements(v) == b@;
                assert(spec_enc_fields(movements_fields(w)) == b@);
                assert(movements_fields(w) == fs0);
                assert(movements_fields(w).len() == 14);
                assert(fs0.len() == fs0_vec.len());
                assert(false);
            }
        }
        return None;
    }
    proof {
        assert(fs@ =~= fs0_vec.skip(0int));
    }
    let fx = fs.remove(0);
    proof {
        assert(fs@ =~= fs0_vec.skip(1int));
        assert(fx == fs0_vec[0]);
        assert(fx.v() == fs0[0]);
    }
    let movement_id = match fx {
        Field::S(x) => x,
        _ => {
                proof {
                    if spec_dec_movements(b@) is Some {
                        let w = choose|v: MovementsV| movements_bounded(v) && spec_enc_movements(v) == b@;
                        assert(spec_enc_fields(movements_fields(w)) == b@);
                        assert(movements_fields(w) == fs0);
                        assert(movements_fields(w)[0] == fs0[0]);
                        assert(false);
                    }
                }
                return None;
        },
    };
    let fx = fs.remove(0);
    proof {
        assert(fs@ =~= fs0_vec.skip(2int));
        assert(fx == fs0_vec[1]);
        assert(fx.v() == fs0[1]);
    }
    let transaction_id = match fx {
        Field::S(x) => x,
        _ => {
                proof {
                    if spec_dec_movements(b@) is Some {
                        let w = choose|v: MovementsV| movements_bounded(v) && spec_enc_movements(v) == b@;
                        assert(spec_enc_fields(movements_fields(w)) == b@);
                        assert(movements_fields(w) == fs0);
                        assert(movements_fields(w)[1] == fs0[1]);
                        assert(false);
                    }
                }
                return None;
        },
    };
    let fx = fs.remove(0);
    proof {
        assert(fs@ =~= fs0_vec.skip(3int));
        assert(fx == fs0_vec[2]);
        assert(fx.v() == fs0[2]);
    }
    let date_year = match fx {
        Field::U64(x) => x,
        _ => {
                proof {
                    if spec_dec_movements(b@) is Some {
                        let w = choose|v: MovementsV| movements_bounded(v) && spec_enc_movements(v) == b@;
                        assert(spec_enc_fields(movements_fields(w)) == b@);
                        assert(movements_fields(w) == fs0);
                        assert(movements_fields(w)[2] == fs0[2]);
                        assert(false);
                    }
                }
                return None;
        },
    };
    let fx = fs.remove(0);
    proof {
        assert(fs@ =~= fs0_vec.skip(4int));
        assert(fx == fs0_vec[3]);
        assert(fx.v() == fs0[3]);
    }
    let date_month = match fx {
        Field::U64(x) => x,
        _ => {
                proof {
                    if spec_dec_movements(b@) is Some {
                        let w = choose|v: MovementsV| movements_bounded(v) && spec_enc_movements(v) == b@;
                        assert(spec_enc_fields(movements_fields(w)) == b@);
                        assert(movements_fields(w) == fs0);
                        assert(movements_fields(w)[3] == fs0[3]);
                        assert(false);
                    }
                }
                return None;
        },
    };
    let fx = fs.remove(0);
    proof {
        assert(fs@ =~= fs0_vec.skip(5int));
        assert(fx == fs0_vec[4]);
        assert(fx.v() == fs0[4]);
    }
    let date_day = match fx {
        Field::U64(x) => x,
        _ => {
                proof {
                    if spec_dec_movements(b@) is Some {
                        let w = choose|v: MovementsV| movements_bounded(v) && spec_enc_movements(v) == b@;
                        assert(spec_enc_fields(movements_fields(w)) == b@);
                        assert(movements_fields(w) == fs0);
                        assert(movements_fields(w)[4] == fs0[4]);
                        assert(false);
                    }
                }
                return None;
        },
    };
    let date = Date { year: date_year, month: date_month, day: date_day };
    let fx = fs.remove(0);
    proof {
        assert(fs@ =~= fs0_vec.skip(6int));
        assert(fx == fs0_vec[5]);
        assert(fx.v() == fs0[5]);
    }
    let movement_type = match fx {
        Field::S(x) => x,
        _ => {
                proof {
                    if spec_dec_movements(b@) is Some {
                        let w = choose|v: MovementsV| movements_bounded(v) && spec_enc_movements(v) == b@;
                        assert(spec_enc_fields(movements_fields(w)) == b@);
                        assert(movements_fields(w) == fs0);
                        assert(movements_fields(w)[5] == fs0[5]);
                        assert(false);
                    }
                }
                return None;
        },
    };
    let fx = fs.remove(0);
    proof {
        assert(fs@ =~= fs0_vec.skip(7int));
        assert(fx == fs0_vec[6]);
        assert(fx.v() == fs0[6]);
    }
    let component_name = match fx {
        Field::OptS(x) => x,
        _ => {
                proof {
                    if spec_dec_movements(b@) is Some {
                        let w = choose|v: MovementsV| movements_bounded(v) && spec_enc_movements(v) == b@;
                        assert(spec_enc_fields(movements_fields(w)) == b@);
                        assert(movements_fields(w) == fs0);
                        assert(movements_fields(w)[6] == fs0[6]);
                        assert(false);
                    }
                }
                return None;
        },
    };
    let fx = fs.remove(0);
    proof {
        assert(fs@ =~= fs0_vec.skip(8int));
        assert(fx == fs0_vec[7]);
        assert(fx.v() == fs0[7]);
    }
    let product_name = match fx {
        Field::OptS(x) => x,
        _ => {
                proof {
                    if spec_dec_movements(b@) is Some {
                        let w = choose|v: MovementsV| movements_bounded(v) && spec_enc_movements(v) == b@;
                        assert(spec_enc_fields(movements_fields(w)) == b@);
                        assert(movements_fields(w) == fs0);
                        assert(movements_fields(w)[7] == fs0[7]);
                        assert(false);
                    }
                }
                return None;
        },
    };
    let fx = fs.remove(0);
    proof {
        assert(fs@ =~= fs0_vec.skip(9int));
        assert(fx == fs0_vec[8]);
        assert(fx.v() == fs0[8]);
    }
    let source_location = match fx {
        Field::S(x) => x,
        _ => {
                proof {
                    if spec_dec_movements(b@) is Some {
                        let w = choose|v: MovementsV| movements_bounded(v) && spec_enc_movements(v) == b@;
                        assert(spec_enc_fields(movements_fields(w)) == b@);
                        assert(movements_fields(w) == fs0);
                        assert(movements_fields(w)[8] == fs0[8]);
                        assert(false);
                    }
                }
                return None;
        },
    };
    let fx = fs.remove(0);
    proof {
        assert(fs@ =~= fs0_vec.skip(10int));
        assert(fx == fs0_vec[9]);
        assert(fx.v() == fs0[9]);
    }
    let destination_location = match fx {
        Field::S(x) => x,
        _ => {
                proof {
                    if spec_dec_movements(b@) is Some {
                        let w = choose|v: MovementsV| movements_bounded(v) && spec_enc_movements(v) == b@;
                        assert(spec_enc_fields(movements_fields(w)) == b@);
                        assert(movements_fields(w) == fs0);
                        assert(movements_fields(w)[9] == fs0[9]);
                        assert(false);
                    }
                }
                return None;
        },
    };
    let fx = fs.remove(0);
    proof {
        assert(fs@ =~= fs0_vec.skip(11int));
        assert(fx == fs0_vec[10]);
        assert(fx.v() == fs0[10]);
    }
    let quantity = match fx {
        Field::U64(x) => x,
        _ => {
                proof {
                    if spec_dec_movements(b@) is Some {
                        let w = choose|v: MovementsV| movements_bounded(v) && spec_enc_movements(v) == b@;
                        assert(spec_enc_fields(movements_fields(w)) == b@);
                        assert(movements_fields(w) == fs0);
                        assert(movements_fields(w)[10] == fs0[10]);
                        assert(false);
                    }
                }
                return None;
        },
    };
    let fx = fs.remove(0);
    proof {
        assert(fs@ =~= fs0_vec.skip(12int));
        assert(fx == fs0_vec[11]);
        assert(fx.v() == fs0[11]);
    }
    let notes = match fx {
        Field::OptS(x) => x,
        _ => {
                proof {
                    if spec_dec_movements(b@) is Some {
                        let w = choose|v: MovementsV| movements_bounded(v) && spec_enc_movements(v) == b@;
                        assert(spec_enc_fields(movements_fields(w)) == b@);
                        assert(movements_fields(w) == fs0);
                        assert(movements_fields(w)[11] == fs0[11]);
                        assert(false);
                    }
                }
                return None;
        },
    };
    let fx = fs.remove(0);
    proof {
        assert(fs@ =~= fs0_vec.skip(13int));
        assert(fx == fs0_vec[12]);
        assert(fx.v() == fs0[12]);
    }
    let status = match fx {
        Field::S(x) => x,
        _ => {
                proof {
                    if spec_dec_movements(b@) is Some {
                        let w = choose|v: MovementsV| movements_bounded(v) && spec_enc_movements(v) == b@;
                        assert(spec_enc_fields(movements_fields(w)) == b@);
                        assert(movements_fields(w) == fs0);
                        assert(movements_fields(w)[12] == fs0[12]);
                        assert(false);
                    }
                }
                return None;
        },
    };
    let fx = fs.remove(0);
    proof {
        assert(fs@ =~= fs0_vec.skip(14int));
        assert(fx == fs0_vec[13]);
        assert(fx.v() == fs0[13]);
    }
    let supplier_order_id = match fx {
        Field::OptS(x) => x,
        _ => {
                proof {
                    if spec_dec_movements(b@) is Some {
                        let w = choose|v: MovementsV| movements_bounded(v) && spec_enc_movements(v) == b@;
                        assert(spec_enc_fields(movements_fields(w)) == b@);
                        assert(movements_fields(w) == fs0);
                        assert(movements_fields(w)[13] == fs0[13]);
                        assert(false);
                    }
                }
                return None;
        },
    };
    let rec = Movements { movement_id, transaction_id, date, movement_type, component_name, product_name, source_location, destination_location, quantity, notes, status, supplier_order_id };
    proof {
        assert(movements_fields(rec@)[0] == fs0[0]);
        assert(movements_fields(rec@)[1] == fs0[1]);
        assert(movements_fields(rec@)[2] == fs0[2]);
        assert(movements_fields(rec@)[3] == fs0[3]);
        assert(movements_fields(rec@)[4] == fs0[4]);
        assert(movements_fields(rec@)[5] == fs0[5]);
        assert(movements_fields(rec@)[6] == fs0[6]);
        assert(movements_fields(rec@)[7] == fs0[7]);
        assert(movements_fields(rec@)[8] == fs0[8]);
        assert(movements_fields(rec@)[9] == fs0[9]);
        assert(movements_fields(rec@)[10] == fs0[10]);
        assert(movements_fields(rec@)[11] == fs0[11]);
        assert(movements_fields(rec@)[12] == fs0[12]);
        assert(movements_fields(rec@)[13] == fs0[13]);
        assert(movements_fields(rec@) =~= fs0);
        assert(spec_enc_movements(rec@) == b@);
        assert(movements_bounded(rec@));
        lemma_movements_round_trip(rec@);
    }
    Some(rec)
}

/// Decodes one stored suppliers_orders record.
pub fn dec_suppliers_orders(b: &Vec<u8>) -> (r: Option<SuppliersOrders>)
    ensures
        match r {
            Some(x) => spec_dec_suppliers_orders(b@) == Some(x@),
            None => spec_dec_suppliers_orders(b@) is None,
        },
{
    let mut fs = match dec_fields(b) {
        Some(fs) => fs,
        None => {
            proof {
                if spec_dec_suppliers_orders(b@) is Some {
                    let w = choose|v: SuppliersOrdersV| suppliers_orders_bounded(v) && spec_enc_suppliers_orders(v) == b@;
                    assert(spec_enc_fields(suppliers_orders_fields(w)) == b@);
                    assert(false);
                }
            }
            return None;
        },
    };
    let ghost fs0_vec = fs@;
    let ghost fs0 = views_of(fs@);
    if fs.len() != 13 {
        proof {
            if spec_dec_suppliers_orders(b@) is Some {
                let w = choose|v: SuppliersOrdersV| suppliers_orders_bounded(v) && spec_enc_suppliers_orders(v) == b@;
                assert(spec_enc_fields(suppliers_orders_fields(w)) == b@);
                assert(suppliers_orders_fields(w) == fs0);
                assert(suppliers_orders_fields(w).len() == 13);
                assert(fs0.len() == fs0_vec.len());
                assert(false);
            }
        }
        return None;
    }
    proof {
        assert(fs@ =~= fs0_vec.skip(0int));
    }
    let fx = fs.remove(0);
    proof {
        assert(fs@ =~= fs0_vec.skip(1int));
        assert(fx == fs0_vec[0]);
        assert(fx.v() == fs0[0]);
    }
    let supplier_id = match fx {
        Field::S(x) => x,
        _ => {
                proof {
                    if spec_dec_suppliers_orders(b@) is Some {
                        let w = choose|v: SuppliersOrdersV| suppliers_orders_bounded(v) && spec_enc_suppliers_orders(v) == b@;
                        assert(spec_enc_fields(suppliers_orders_fields(w)) == b@);
                        assert(suppliers_orders_fields(w) == fs0);
                        assert(suppliers_orders_fields(w)[0] == fs0[0]);
                        assert(false);
                    }
                }
                return None;
        },
    };
    let fx = fs.remove(0);
    proof {
        assert(fs@ =~= fs0_vec.skip(2int));
        assert(fx == fs0_vec[1]);
        assert(fx.v() == fs0[1]);
    }
    let component_name = match fx {
        Field::S(x) => x,
        _ => {
                proof {
                    if spec_dec_suppliers_orders(b@) is Some {
                        let w = choose|v: SuppliersOrdersV| suppliers_orders_bounded(v) && spec_enc_suppliers_orders(v) == b@;
                        assert(spec_enc_fields(suppliers_orders_fields(w)) == b@);
                        assert(suppliers_orders_fields(w) == fs0);
                        assert(suppliers_orders_fields(w)[1] == fs0[1]);
                        assert(false);
                    }
                }
                return None;
        },
    };
    let fx = fs.remove(0);
    proof {
        assert(fs@ =~= fs0_vec.skip(3int));
        assert(fx == fs0_vec[2]);
        assert(fx.v() == fs0[2]);
    }
    let procurement_id = match fx {
        Field::S(x) => x,
        _ => {
                proof {
                    if spec_dec_suppliers_orders(b@) is Some {
                        let w = choose|v: SuppliersOrdersV| suppliers_orders_bounded(v) && spec_enc_suppliers_orders(v) == b@;
                        assert(spec_enc_fields(suppliers_orders_fields(w)) == b@);
                        assert(suppliers_orders_fields(w) == fs0);
                        assert(suppliers_orders_fields(w)[2] == fs0[2]);
                        assert(false);
                    }
                }
                return None;
        },
    };
    let fx = fs.remove(0);
    proof {
        assert(fs@ =~= fs0_vec.skip(4int));
        assert(fx == fs0_vec[3]);
        assert(fx.v() == fs0[3]);
    }
    let order_id = match fx {
        Field::S(x) => x,
        _ => {
                proof {
                    if spec_dec_suppliers_orders(b@) is Some {
                        let w = choose|v: SuppliersOrdersV| suppliers_orders_bounded(v) && spec_enc_suppliers_orders(v) == b@;
                        assert(spec_enc_fields(suppliers_orders_fields(w)) == b@);
                        assert(suppliers_orders_fields(w) == fs0);
                        assert(suppliers_orders_fields(w)[3] == fs0[3]);
                        assert(false);
                    }
                }
                return None;
        },
    };
    let fx = fs.remove(0);
    proof {
        assert(fs@ =~= fs0_vec.skip(5int));
        assert(fx == fs0_vec[4]);
        assert(fx.v() == fs0[4]);
    }
    let total_components_required = match fx {
        Field::U64(x) => x,
        _ => {
                proof {
                    if spec_dec_suppliers_orders(b@) is Some {
                        let w = choose|v: SuppliersOrdersV| suppliers_orders_bounded(v) && spec_enc_suppliers_orders(v) == b@;
                        assert(spec_enc_fields(suppliers_orders_fields(w)) == b@);
                        assert(suppliers_orders_fields(w) == fs0);
                        assert(suppliers_orders_fields(w)[4] == fs0[4]);
                        assert(false);
                    }
                }
                return None;
        },
    };
    let fx = fs.remove(0);
    proof {
        assert(fs@ =~= fs0_vec.skip(6int));
        assert(fx == fs0_vec[5]);
        assert(fx.v() == fs0[5]);
    }
    let components_roundof = match fx {
        Field::U64(x) => x,
        _ => {
                proof {
                    if spec_dec_suppliers_orders(b@) is Some {
                        let w = choose|v: SuppliersOrdersV| suppliers_orders_bounded(v) && spec_enc_suppliers_orders(v) == b@;
                        assert(spec_enc_fields(suppliers_orders_fields(w)) == b@);
                        assert(suppliers_orders_fields(w) == fs0);
                        assert(suppliers_orders_fields(w)[5] == fs0[5]);
                        assert(false);
                    }
                }
                return None;
        },
    };
    let fx = fs.remove(0);
    proof {
        assert(fs@ =~= fs0_vec.skip(7int));
        assert(fx == fs0_vec[6]);
        assert(fx.v() == fs0[6]);
    }
    let status = match fx {
        Field::S(x) => x,
        _ => {
                proof {
                    if spec_dec_suppliers_orders(b@) is Some {
                        let w = choose|v: SuppliersOrdersV| suppliers_orders_bounded(v) && spec_enc_suppliers_orders(v) == b@;
                        assert(spec_enc_fields(suppliers_orders_fields(w)) == b@);
                        assert(suppliers_orders_fields(w) == fs0);
                        assert(suppliers_orders_fields(w)[6] == fs0[6]);
                        assert(false);
                    }
                }
                return None;
        },
    };
    let fx = fs.remove(0);
    proof {
        assert(fs@ =~= fs0_vec.skip(8int));
        assert(fx == fs0_vec[7]);
        assert(fx.v() == fs0[7]);
    }
    let order_date_year = match fx {
        Field::U64(x) => x,
        _ => {
                proof {
                    if spec_dec_suppliers_orders(b@) is Some {
                        let w = choose|v: SuppliersOrdersV| suppliers_orders_bounded(v) && spec_enc_suppliers_orders(v) == b@;
                        assert(spec_enc_fields(suppliers_orders_fields(w)) == b@);
                        assert(suppliers_orders_fields(w) == fs0);
                        assert(suppliers_orders_fields(w)[7] == fs0[7]);
                        assert(false);
                    }
                }
                return None;
        },
    };
    let fx = fs.remove(0);
    proof {
        assert(fs@ =~= fs0_vec.skip(9int));
        assert(fx == fs0_vec[8]);
        assert(fx.v() == fs0[8]);
    }
    let order_date_month = match fx {
        Field::U64(x) => x,
        _ => {
                proof {
                    if spec_dec_suppliers_orders(b@) is Some {
                        let w = choose|v: SuppliersOrdersV| suppliers_orders_bounded(v) && spec_enc_suppliers_orders(v) == b@;
                        assert(spec_enc_fields(suppliers_orders_fields(w)) == b@);
                        assert(suppliers_orders_fields(w) == fs0);
                        assert(suppliers_orders_fields(w)[8] == fs0[8]);
                        assert(false);
                    }
                }
                return None;
        },
    };
    let fx = fs.remove(0);
    proof {
        assert(fs@ =~= fs0_vec.skip(10int));
        assert(fx == fs0_vec[9]);
        assert(fx.v() == fs0[9]);
    }
    let order_date_day = match fx {
        Field::U64(x) => x,
        _ => {
                proof {
                    if spec_dec_suppliers_orders(b@) is Some {
                        let w = choose|v: SuppliersOrdersV| suppliers_orders_bounded(v) && spec_enc_suppliers_orders(v) == b@;
                        assert(spec_enc_fields(suppliers_orders_fields(w)) == b@);
                        assert(suppliers_orders_fields(w) == fs0);
                        assert(suppliers_orders_fields(w)[9] == fs0[9]);
                        assert(false);
                    }
                }
                return None;
        },
    };
    let order_date = Date { year: order_date_year, month: order_date_month, day: order_date_day };
    let fx = fs.remove(0);
    proof {
        assert(fs@ =~= fs0_vec.skip(11int));
        assert(fx == fs0_vec[10]);
        assert(fx.v() == fs0[10]);
    }
    let expected_delivery_date_year = match fx {
        Field::U64(x) => x,
        _ => {
                proof {
                    if spec_dec_suppliers_orders(b@) is Some {
                        let w = choose|v: SuppliersOrdersV| suppliers_orders_bounded(v) && spec_enc_suppliers_orders(v) == b@;
                        assert(spec_enc_fields(suppliers_orders_fields(w)) == b@);
                        assert(suppliers_orders_fields(w) == fs0);
                        assert(suppliers_orders_fields(w)[10] == fs0[10]);
                        assert(false);
                    }
                }
                return None;
        },
    };
    let fx = fs.remove(0);
    proof {
        assert(fs@ =~= fs0_vec.skip(12int));
        assert(fx == fs0_vec[11]);
        assert(fx.v() == fs0[11]);
    }
    let expected_delivery_date_month = match fx {
        Field::U64(x) => x,
        _ => {
                proof {
                    if spec_dec_suppliers_orders(b@) is Some {
                        let w = choose|v: SuppliersOrdersV| suppliers_orders_bounded(v) && spec_enc_suppliers_orders(v) == b@;
                        assert(spec_enc_fields(suppliers_orders_fields(w)) == b@);
                        assert(suppliers_orders_fields(w) == fs0);
                        assert(suppliers_orders_fields(w)[11] == fs0[11]);
                        assert(false);
                    }
                }
                return None;
        },
    };
    let fx = fs.remove(0);
    proof {
        assert(fs@ =~= fs0_vec.skip(13int));
        assert(fx == fs0_vec[12]);
        assert(fx.v() == fs0[12]);
    }
    let expected_delivery_date_day = match fx {
        Field::U64(x) => x,
        _ => {
                proof {
                    if spec_dec_suppliers_orders(b@) is Some {
                        let w = choose|v: SuppliersOrdersV| suppliers_orders_bounded(v) && spec_enc_suppliers_orders(v) == b@;
                        assert(spec_enc_fields(suppliers_orders_fields(w)) == b@);
                        assert(suppliers_orders_fields(w) == fs0);
                        assert(suppliers_orders_fields(w)[12] == fs0[12]);
                        assert(false);
                    }
                }
                return None;
        },
    };
    let expected_delivery_date = Date { year: expected_delivery_date_year, month: expected_delivery_date_month, day: expected_delivery_date_day };
    let rec = SuppliersOrders { supplier_id, component_name, procurement_id, order_id, total_components_required, components_roundof, status, order_date, expected_delivery_date };
    proof {
        assert(suppliers_orders_fields(rec@)[0] == fs0[0]);
        assert(suppliers_orders_fields(rec@)[1] == fs0[1]);
        assert(suppliers_orders_fields(rec@)[2] == fs0[2]);
        assert(suppliers_orders_fields(rec@)[3] == fs0[3]);
        assert(suppliers_orders_fields(rec@)[4] == fs0[4]);
        assert(suppliers_orders_fields(rec@)[5] == fs0[5]);
        assert(suppliers_orders_fields(rec@)[6] == fs0[6]);
        assert(suppliers_orders_fields(rec@)[7] == fs0[7]);
        assert(suppliers_orders_fields(rec@)[8] == fs0[8]);
        assert(suppliers_orders_fields(rec@)[9] == fs0[9]);
        assert(suppliers_orders_fields(rec@)[10] == fs0[10]);
        assert(suppliers_orders_fields(rec@)[11] == fs0[11]);
        assert(suppliers_orders_fields(rec@)[12] == fs0[12]);
        assert(suppliers_orders_fields(rec@) =~= fs0);
        assert(spec_enc_suppliers_orders(rec@) == b@);
        assert(suppliers_orders_bounded(rec@));
        lemma_suppliers_orders_round_trip(rec@);
    }
    Some(rec)
}

/// Decodes one stored orders record.
pub fn dec_orders(b: &Vec<u8>) -> (r: Option<Orders>)
    ensures
        match r {
            Some(x) => spec_dec_orders(b@) == Some(x@),
            None => spec_dec_orders(b@) is None,
        },
{
    let mut fs = match dec_fields(b) {
        Some(fs) => fs,
        None => {
            proof {
                if spec_dec_orders(b@) is Some {
                    let w = choose|v: OrdersV| orders_bounded(v) && spec_enc_orders(v) == b@;
                    assert(spec_enc_fields(orders_fields(w)) == b@);
                    assert(false);
                }
            }
            return None;
        },
    };
    let ghost fs0_vec = fs@;
    let ghost fs0 = views_of(fs@);
    if fs.len() != 23 {
        proof {
            if spec_dec_orders(b@) is Some {
                let w = choose|v: OrdersV| orders_bounded(v) && spec_enc_orders(v) == b@;
                assert(spec_enc_fields(orders_fields(w)) == b@);
                assert(orders_fields(w) == fs0);
                assert(orders_fields(w).len() == 23);
                assert(fs0.len() == fs0_vec.len());
                assert(false);
            }
        }
        return None;
    }
    proof {
        assert(fs@ =~= fs0_vec.skip(0int));
    }
    let fx = fs.remove(0);
    proof {
        assert(fs@ =~= fs0_vec.skip(1int));
        assert(fx == fs0_vec[0]);
        assert(fx.v() == fs0[0]);
    }
    let order_id = match fx {
        Field::S(x) => x,
        _ => {
                proof {
                    if spec_dec_orders(b@) is Some {
                        let w = choose|v: OrdersV| orders_bounded(v) && spec_enc_orders(v) == b@;
                        assert(spec_enc_fields(orders_fields(w)) == b@);
                        assert(orders_fields(w) == fs0);
                        assert(orders_fields(w)[0] == fs0[0]);
                        assert(false);
                    }
                }
                return None;
        },
    };
    let fx = fs.remove(0);
    proof {
        assert(fs@ =~= fs0_vec.skip(2int));
        assert(fx == fs0_vec[1]);
        assert(fx.v() == fs0[1]);
    }
    let procurements = match fx {
        Field::OptSList(x) => x,
        _ => {
                proof {
                    if spec_dec_orders(b@) is Some {
                        let w = choose|v: OrdersV| orders_bounded(v) && spec_enc_orders(v) == b@;
                        assert(spec_enc_fields(orders_fields(w)) == b@);
                        assert(orders_fields(w) == fs0);
                        assert(orders_fields(w)[1] == fs0[1]);
                        assert(false);
                    }
                }
                return None;
        },
    };
    let fx = fs.remove(0);
    proof {
        assert(fs@ =~= fs0_vec.skip(3int));
        assert(fx == fs0_vec[2]);
        assert(fx.v() == fs0[2]);
    }
    let supplier_orders = match fx {
        Field::OptSList(x) => x,
        _ => {
                proof {
                    if spec_dec_orders(b@) is Some {
                        let w = choose|v: OrdersV| orders_bounded(v) && spec_enc_orders(v) == b@;
                        assert(spec_enc_fields(orders_fields(w)) == b@);
                        assert(orders_fields(w) == fs0);
                        assert(orders_fields(w)[2] == fs0[2]);
                        assert(false);
                    }
                }
                return None;
        },
    };
    let fx = fs.remove(0);
    proof {
        assert(fs@ =~= fs0_vec.skip(4int));
        assert(fx == fs0_vec[3]);
        assert(fx.v() == fs0[3]);
    }
    let quanity_ordered = match fx {
        Field::U64(x) => x,
        _ => {
                proof {
                    if spec_dec_orders(b@) is Some {
                        let w = choose|v: OrdersV| orders_bounded(v) && spec_enc_orders(v) == b@;
                        assert(spec_enc_fields(orders_fields(w)) == b@);
                        assert(orders_fields(w) == fs0);
                        assert(orders_fields(w)[3] == fs0[3]);
                        assert(false);
                    }
                }
                return None;
        },
    };
    let fx = fs.remove(0);
    proof {
        assert(fs@ =~= fs0_vec.skip(5int));
        assert(fx == fs0_vec[4]);
        assert(fx.v() == fs0[4]);
    }
    let product_id = match fx {
        Field::S(x) => x,
        _ => {
                proof {
                    if spec_dec_orders(b@) is Some {
                        let w = choose|v: OrdersV| orders_bounded(v) && spec_enc_orders(v) == b@;
                        assert(spec_enc_fields(orders_fields(w)) == b@);
                        assert(orders_fields(w) == fs0);
                        assert(orders_fields(w)[4] == fs0[4]);
                        assert(false);
                    }
                }
                return None;
        },
    };
    let fx = fs.remove(0);
    proof {
        assert(fs@ =~= fs0_vec.skip(6int));
        assert(fx == fs0_vec[5]);
        assert(fx.v() == fs0[5]);
    }
    let product = match fx {
        Field::S(x) => x,
        _ => {
                proof {
                    if spec_dec_orders(b@) is Some {
                        let w = choose|v: OrdersV| orders_bounded(v) && spec_enc_orders(v) == b@;
                        assert(spec_enc_fields(orders_fields(w)) == b@);
                        assert(orders_fields(w) == fs0);
                        assert(orders_fields(w)[5] == fs0[5]);
                        assert(false);
                    }
                }
                return None;
        },
    };
    let fx = fs.remove(0);
    proof {
        assert(fs@ =~= fs0_vec.skip(7int));
        assert(fx == fs0_vec[6]);
        assert(fx.v() == fs0[6]);
    }
    let quantity_required = match fx {
        Field::U64(x) => x,
        _ => {
                proof {
                    if spec_dec_orders(b@) is Some {
                        let w = choose|v: OrdersV| orders_bounded(v) && spec_enc_orders(v) == b@;
                        assert(spec_enc_fields(orders_fields(w)) == b@);
                        assert(orders_fields(w) == fs0);
                        assert(orders_fields(w)[6] == fs0[6]);
                        assert(false);
                    }
                }
                return None;
        },
    };
    let fx = fs.remove(0);
    proof {
        assert(fs@ =~= fs0_vec.skip(8int));
        assert(fx == fs0_vec[7]);
        assert(fx.v() == fs0[7]);
    }
    let expected_delivery_date_year = match fx {
        Field::U64(x) => x,
        _ => {
                proof {
                    if spec_dec_orders(b@) is Some {
                        let w = choose|v: OrdersV| orders_bounded(v) && spec_enc_orders(v) == b@;
                        assert(spec_enc_fields(orders_fields(w)) == b@);
                        assert(orders_fields(w) == fs0);
                        assert(orders_fields(w)[7] == fs0[7]);
                        assert(false);
                    }
                }
                return None;
        },
    };
    let fx = fs.remove(0);
    proof {
        assert(fs@ =~= fs0_vec.skip(9int));
        assert(fx == fs0_vec[8]);
        assert(fx.v() == fs0[8]);
    }
    let expected_delivery_date_month = match fx {
        Field::U64(x) => x,
        _ => {
                proof {
                    if spec_dec_orders(b@) is Some {
                        let w = choose|v: OrdersV| orders_bounded(v) && spec_enc_orders(v) == b@;
                        assert(spec_enc_fields(orders_fields(w)) == b@);
                        assert(orders_fields(w) == fs0);
                        assert(orders_fields(w)[8] == fs0[8]);
                        assert(false);
                    }
                }
                return None;
        },
    };
    let fx = fs.remove(0);
    proof {
        assert(fs@ =~= fs0_vec.skip(10int));
        assert(fx == fs0_vec[9]);
        assert(fx.v() == fs0[9]);
    }
    let expected_delivery_date_day = match fx {
        Field::U64(x) => x,
        _ => {
                proof {
                    if spec_dec_orders(b@) is Some {
                        let w = choose|v: OrdersV| orders_bounded(v) && spec_enc_orders(v) == b@;
                        assert(spec_enc_fields(orders_fields(w)) == b@);
                        assert(orders_fields(w) == fs0);
                        assert(orders_fields(w)[9] == fs0[9]);
                        assert(false);
                    }
                }
                return None;
        },
    };
    let expected_delivery_date = Date { year: expected_delivery_date_year, month: expected_delivery_date_month, day: expected_delivery_date_day };
    let fx = fs.remove(0);
    proof {
        assert(fs@ =~= fs0_vec.skip(11int));
        assert(fx == fs0_vec[10]);
        assert(fx.v() == fs0[10]);
    }
    let production_start_date_year = match fx {
        Field::U64(x) => x,
        _ => {
                proof {
                    if spec_dec_orders(b@) is Some {
                        let w = choose|v: OrdersV| orders_bounded(v) && spec_enc_orders(v) == b@;
                        assert(spec_enc_fields(orders_fields(w)) == b@);
                        assert(orders_fields(w) == fs0);
                        assert(orders_fields(w)[10] == fs0[10]);
                        assert(false);
                    }
                }
                return None;
        },
    };
    let fx = fs.remove(0);
    proof {
        assert(fs@ =~= fs0_vec.skip(12int));
        assert(fx == fs0_vec[11]);
        assert(fx.v() == fs0[11]);
    }
    let production_start_date_month = match fx {
        Field::U64(x) => x,
        _ => {
                proof {
                    if spec_dec_orders(b@) is Some {
                        let w = choose|v: OrdersV| orders_bounded(v) && spec_enc_orders(v) == b@;
                        assert(spec_enc_fields(orders_fields(w)) == b@);
                        assert(orders_fields(w) == fs0);
                        assert(orders_fields(w)[11] == fs0[11]);
                        assert(false);
                    }
                }
                return None;
        },
    };
    let fx = fs.remove(0);
    proof {
        assert(fs@ =~= fs0_vec.skip(13int));
        assert(fx == fs0_vec[12]);
        assert(fx.v() == fs0[12]);
    }
    let production_start_date_day = match fx {
        Field::U64(x) => x,
        _ => {
                proof {
                    if spec_dec_orders(b@) is Some {
                        let w = choose|v: OrdersV| orders_bounded(v) && spec_enc_orders(v) == b@;
                        assert(spec_enc_fields(orders_fields(w)) == b@);
                        assert(orders_fields(w) == fs0);
                        assert(orders_fields(w)[12] == fs0[12]);
                        assert(false);
                    }
                }
                return None;
        },
    };
    let production_start_date = Date { year: production_start_date_year, month: production_start_date_month, day: production_start_date_day };
    let fx = fs.remove(0);
    proof {
        assert(fs@ =~= fs0_vec.skip(14int));
        assert(fx == fs0_vec[13]);
        assert(fx.v() == fs0[13]);
    }
    let expected_ship_date_year = match fx {
        Field::U64(x) => x,
        _ => {
                proof {
                    if spec_dec_orders(b@) is Some {
                        let w = choose|v: OrdersV| orders_bounded(v) && spec_enc_orders(v) == b@;
                        assert(spec_enc_fields(orders_fields(w)) == b@);
                        assert(orders_fields(w) == fs0);
                        assert(orders_fields(w)[13] == fs0[13]);
                        assert(false);
                    }
                }
                return None;
        },
    };
    let fx = fs.remove(0);
    proof {
        assert(fs@ =~= fs0_vec.skip(15int));
        assert(fx == fs0_vec[14]);
        assert(fx.v() == fs0[14]);
    }
    let expected_ship_date_month = match fx {
        Field::U64(x) => x,
        _ => {
                proof {
                    if spec_dec_orders(b@) is Some {
                        let w = choose|v: OrdersV| orders_bounded(v) && spec_enc_orders(v) == b@;
                        assert(spec_enc_fields(orders_fields(w)) == b@);
                        assert(orders_fields(w) == fs0);
                        assert(orders_fields(w)[14] == fs0[14]);
                        assert(false);
                    }
                }
                return None;
        },
    };
    let fx = fs.remove(0);
    proof {
        assert(fs@ =~= fs0_vec.skip(16int));
        assert(fx == fs0_vec[15]);
        assert(fx.v() == fs0[15]);
    }
    let expected_ship_date_day = match fx {
        Field::U64(x) => x,
        _ => {
                proof {
                    if spec_dec_orders(b@) is Some {
                        let w = choose|v: OrdersV| orders_bounded(v) && spec_enc_orders(v) == b@;
                        assert(spec_enc_fields(orders_fields(w)) == b@);
                        assert(orders_fields(w) == fs0);
                        assert(orders_fields(w)[15] == fs0[15]);
                        assert(false);
                    }
                }
                return None;
        },
    };
    let expected_ship_date = Date { year: expected_ship_date_year, month: expected_ship_date_month, day: expected_ship_date_day };
    let fx = fs.remove(0);
    proof {
        assert(fs@ =~= fs0_vec.skip(17int));
        assert(fx == fs0_vec[16]);
        assert(fx.v() == fs0[16]);
    }
    let recid = match fx {
        Field::S(x) => x,
        _ => {
                proof {
                    if spec_dec_orders(b@) is Some {
                        let w = choose|v: OrdersV| orders_bounded(v) && spec_enc_orders(v) == b@;
                        assert(spec_enc_fields(orders_fields(w)) == b@);
                        assert(orders_fields(w) == fs0);
                        assert(orders_fields(w)[16] == fs0[16]);
                        assert(false);
                    }
                }
                return None;
        },
    };
    let fx = fs.remove(0);
    proof {
        assert(fs@ =~= fs0_vec.skip(18int));
        assert(fx == fs0_vec[17]);
        assert(fx.v() == fs0[17]);
    }
    let order_status = match fx {
        Field::S(x) => x,
        _ => {
                proof {
                    if spec_dec_orders(b@) is Some {
                        let w = choose|v: OrdersV| orders_bounded(v) && spec_enc_orders(v) == b@;
                        assert(spec_enc_fields(orders_fields(w)) == b@);
                        assert(orders_fields(w) == fs0);
                        assert(orders_fields(w)[17] == fs0[17]);
                        assert(false);
                    }
                }
                return None;
        },
    };
    let fx = fs.remove(0);
    proof {
        assert(fs@ =~= fs0_vec.skip(19int));
        assert(fx == fs0_vec[18]);
        assert(fx.v() == fs0[18]);
    }
    let total_components_booked = match fx {
        Field::U64(x) => x,
        _ => {
                proof {
                    if spec_dec_orders(b@) is Some {
                        let w = choose|v: OrdersV| orders_bounded(v) && spec_enc_orders(v) == b@;
                        assert(spec_enc_fields(orders_fields(w)) == b@);
                        assert(orders_fields(w) == fs0);
                        assert(orders_fields(w)[18] == fs0[18]);
                        assert(false);
                    }
                }
                return None;
        },
    };
    let fx = fs.remove(0);
    proof {
        assert(fs@ =~= fs0_vec.skip(20int));
        assert(fx == fs0_vec[19]);
        assert(fx.v() == fs0[19]);
    }
    let components_notes = match fx {
        Field::OptS(x) => x,
        _ => {
                proof {
                    if spec_dec_orders(b@) is Some {
                        let w = choose|v: OrdersV| orders_bounded(v) && spec_enc_orders(v) == b@;
                        assert(spec_enc_fields(orders_fields(w)) == b@);
                        assert(orders_fields(w) == fs0);
                        assert(orders_fields(w)[19] == fs0[19]);
                        assert(false);
                    }
                }
                return None;
        },
    };
    let fx = fs.remove(0);
    proof {
        assert(fs@ =~= fs0_vec.skip(21int));
        assert(fx == fs0_vec[20]);
        assert(fx.v() == fs0[20]);
    }
    let components_required = match fx {
        Field::U64(x) => x,
        _ => {
                proof {
                    if spec_dec_orders(b@) is Some {
                        let w = choose|v: OrdersV| orders_bounded(v) && spec_enc_orders(v) == b@;
                        assert(spec_enc_fields(orders_fields(w)) == b@);
                        assert(orders_fields(w) == fs0);
                        assert(orders_fields(w)[20] == fs0[20]);
                        assert(false);
                    }
                }
                return None;
        },
    };
    let fx = fs.remove(0);
    proof {
        assert(fs@ =~= fs0_vec.skip(22int));
        assert(fx == fs0_vec[21]);
        assert(fx.v() == fs0[21]);
    }
    let total_gap_components = match fx {
        Field::OptU64List(x) => x,
        _ => {
                proof {
                    if spec_dec_orders(b@) is Some {
                        let w = choose|v: OrdersV| orders_bounded(v) && spec_enc_orders(v) == b@;
                        assert(spec_enc_fields(orders_fields(w)) == b@);
                        assert(orders_fields(w) == fs0);
                        assert(orders_fields(w)[21] == fs0[21]);
                        assert(false);
                    }
                }
                return None;
        },
    };
    let fx = fs.remove(0);
    proof {
        assert(fs@ =~= fs0_vec.skip(23int));
        assert(fx == fs0_vec[22]);
        assert(fx.v() == fs0[22]);
    }
    let components = match fx {
        Field::OptSList(x) => x,
        _ => {
                proof {
                    if spec_dec_orders(b@) is Some {
                        let w = choose|v: OrdersV| orders_bounded(v) && spec_enc_orders(v) == b@;
                        assert(spec_enc_fields(orders_fields(w)) == b@);
                        assert(orders_fields(w) == fs0);
                        assert(orders_fields(w)[22] == fs0[22]);
                        assert(false);
                    }
                }
                return None;
        },
    };
    let rec = Orders { order_id, procurements, supplier_orders, quanity_ordered, product_id, product, quantity_required, expected_delivery_date, production_start_date, expected_ship_date, recid, order_status, total_components_booked, components_notes, components_required, total_gap_components, components };
    proof {
        assert(orders_fields(rec@)[0] == fs0[0]);
        assert(orders_fields(rec@)[1] == fs0[1]);
        assert(orders_fields(rec@)[2] == fs0[2]);
        assert(orders_fields(rec@)[3] == fs0[3]);
        assert(orders_fields(rec@)[4] == fs0[4]);
        assert(orders_fields(rec@)[5] == fs0[5]);
        assert(orders_fields(rec@)[6] == fs0[6]);
        assert(orders_fields(rec@)[7] == fs0[7]);
        assert(orders_fields(rec@)[8] == fs0[8]);
        assert(orders_fields(rec@)[9] == fs0[9]);
        assert(orders_fields(rec@)[10] == fs0[10]);
        assert(orders_fields(rec@)[11] == fs0[11]);
        assert(orders_fields(rec@)[12] == fs0[12]);
        assert(orders_fields(rec@)[13] == fs0[13]);
        assert(orders_fields(rec@)[14] == fs0[14]);
        assert(orders_fields(rec@)[15] == fs0[15]);
        assert(orders_fields(rec@)[16] == fs0[16]);
        assert(orders_fields(rec@)[17] == fs0[17]);
        assert(orders_fields(rec@)[18] == fs0[18]);
        assert(orders_fields(rec@)[19] == fs0[19]);
        assert(orders_fields(rec@)[20] == fs0[20]);
        assert(orders_fields(rec@)[21] == fs0[21]);
        assert(orders_fields(rec@)[22] == fs0[22]);
        assert(orders_fields(rec@) =~= fs0);
        assert(spec_enc_orders(rec@) == b@);
        assert(orders_bounded(rec@));
        lemma_orders_round_trip(rec@);
    }
    Some(rec)
}

/// Decodes one stored procurement record.
pub fn dec_procurement(b: &Vec<u8>) -> (r: Option<Procurement>)
    ensures
        match r {
            Some(x) => spec_dec_procurement(b@) == Some(x@),
            None => spec_dec_procurement(b@) is None,
        },
{
    let mut fs = match dec_fields(b) {
        Some(fs) => fs,
        None => {
            proof {
                if spec_dec_procurement(b@) is Some {
                    let w = choose|v: ProcurementV| procurement_bounded(v) && spec_enc_procurement(v) == b@;
                    assert(spec_enc_fields(procurement_fields(w)) == b@);
                    assert(false);
                }
            }
            return None;
        },
    };
    let ghost fs0_vec = fs@;
    let ghost fs0 = views_of(fs@);
    if fs.len() != 6 {
        proof {
            if spec_dec_procurement(b@) is Some {
                let w = choose|v: ProcurementV| procurement_bounded(v) && spec_enc_procurement(v) == b@;
                assert(spec_enc_fields(procurement_fields(w)) == b@);
                assert(procurement_fields(w) == fs0);
                assert(procurement_fields(w).len() == 6);
                assert(fs0.len() == fs0_vec.len());
                assert(false);
            }
        }
        return None;
    }
    proof {
        assert(fs@ =~= fs0_vec.skip(0int));
    }
    let fx = fs.remove(0);
    proof {
        assert(fs@ =~= fs0_vec.skip(1int));
        assert(fx == fs0_vec[0]);
        assert(fx.v() == fs0[0]);
    }
    let procurement_id = match fx {
        Field::S(x) => x,
        _ => {
                proof {
                    if spec_dec_procurement(b@) is Some {
                        let w = choose|v: ProcurementV| procurement_bounded(v) && spec_enc_procurement(v) == b@;
                        assert(spec_enc_fields(procurement_fields(w)) == b@);
                        assert(procurement_fields(w) == fs0);
                        assert(procurement_fields(w)[0] == fs0[0]);
                        assert(false);
                    }
                }
                return None;
        },
    };
    let fx = fs.remove(0);
    proof {
        assert(fs@ =~= fs0_vec.skip(2int));
        assert(fx == fs0_vec[1]);
        assert(fx.v() == fs0[1]);
    }
    let order_id = match fx {
        Field::S(x) => x,
        _ => {
                proof {
                    if spec_dec_procurement(b@) is Some {
                        let w = choose|v: ProcurementV| procurement_bounded(v) && spec_enc_procurement(v) == b@;
                        assert(spec_enc_fields(procurement_fields(w)) == b@);
                        assert(procurement_fields(w) == fs0);
                        assert(procurement_fields(w)[1] == fs0[1]);
                        assert(false);
                    }
                }
                return None;
        },
    };
    let fx = fs.remove(0);
    proof {
        assert(fs@ =~= fs0_vec.skip(3int));
        assert(fx == fs0_vec[2]);
        assert(fx.v() == fs0[2]);
    }
    let components = match fx {
        Field::OptSList(x) => x,
        _ => {
                proof {
                    if spec_dec_procurement(b@) is Some {
                        let w = choose|v: ProcurementV| procurement_bounded(v) && spec_enc_procurement(v) == b@;
                        assert(spec_enc_fields(procurement_fields(w)) == b@);
                        assert(procurement_fields(w) == fs0);
                        assert(procurement_fields(w)[2] == fs0[2]);
                        assert(false);
                    }
                }
                return None;
        },
    };
    let fx = fs.remove(0);
    proof {
        assert(fs@ =~= fs0_vec.skip(4int));
        assert(fx == fs0_vec[3]);
        assert(fx.v() == fs0[3]);
    }
    let quantity = match fx {
        Field::U64(x) => x,
        _ => {
                proof {
                    if spec_dec_procurement(b@) is Some {
                        let w = choose|v: ProcurementV| procurement_bounded(v) && spec_enc_procurement(v) == b@;
                        assert(spec_enc_fields(procurement_fields(w)) == b@);
                        assert(procurement_fields(w) == fs0);
                        assert(procurement_fields(w)[3] == fs0[3]);
                        assert(false);
                    }
                }
                return None;
        },
    };
    let fx = fs.remove(0);
    proof {
        assert(fs@ =~= fs0_vec.skip(5int));
        assert(fx == fs0_vec[4]);
        assert(fx.v() == fs0[4]);
    }
    let status = match fx {
        Field::S(x) => x,
        _ => {
                proof {
                    if spec_dec_procurement(b@) is Some {
                        let w = choose|v: ProcurementV| procurement_bounded(v) && spec_enc_procurement(v) == b@;
                        assert(spec_enc_fields(procurement_fields(w)) == b@);
                        assert(procurement_fields(w) == fs0);
                        assert(procurement_fields(w)[4] == fs0[4]);
                        assert(false);
                    }
                }
                return None;
        },
    };
    let fx = fs.remove(0);
    proof {
        assert(fs@ =~= fs0_vec.skip(6int));
        assert(fx == fs0_vec[5]);
        assert(fx.v() == fs0[5]);
    }
    let product = match fx {
        Field::S(x) => x,
        _ => {
                proof {
                    if spec_dec_procurement(b@) is Some {
                        let w = choose|v: ProcurementV| procurement_bounded(v) && spec_enc_procurement(v) == b@;
                        assert(spec_enc_fields(procurement_fields(w)) == b@);
                        assert(procurement_fields(w) == fs0);
                        assert(procurement_fields(w)[5] == fs0[5]);
                        assert(false);
                    }
                }
                return None;
        },
    };
    let rec = Procurement { procurement_id, order_id, components, quantity, status, product };
    proof {
        assert(procurement_fields(rec@)[0] == fs0[0]);
        assert(procurement_fields(rec@)[1] == fs0[1]);
        assert(procurement_fields(rec@)[2] == fs0[2]);
        assert(procurement_fields(rec@)[3] == fs0[3]);
        assert(procurement_fields(rec@)[4] == fs0[4]);
        assert(procurement_fields(rec@)[5] == fs0[5]);
        assert(procurement_fields(rec@) =~= fs0);
        assert(spec_enc_procurement(rec@) == b@);
        assert(procurement_bounded(rec@));
        lemma_procurement_round_trip(rec@);
    }
    Some(rec)
}

/// Decodes one stored assembly_time_line record.
pub fn dec_assembly_time_line(b: &Vec<u8>) -> (r: Option<AssemblyTimeLine>)
    ensures
        match r {
            Some(x) => spec_dec_assembly_time_line(b@) == Some(x@),
            None => spec_dec_assembly_time_line(b@) is None,
        },
{
    let mut fs = match dec_fields(b) {
        Some(fs) => fs,
        None => {
            proof {
                if spec_dec_assembly_time_line(b@) is Some {
                    let w = choose|v: AssemblyTimeLineV| assembly_time_line_bounded(v) && spec_enc_assembly_time_line(v) == b@;
                    assert(spec_enc_fields(assembly_time_line_fields(w)) == b@);
                    assert(false);
                }
            }
            return None;
        },
    };
    let ghost fs0_vec = fs@;
    let ghost fs0 = views_of(fs@);
    if fs.len() != 21 {
        proof {
            if spec_dec_assembly_time_line(b@) is Some {
                let w = choose|v: AssemblyTimeLineV| assembly_time_line_bounded(v) && spec_enc_assembly_time_line(v) == b@;
                assert(spec_enc_fields(assembly_time_line_fields(w)) == b@);
                assert(assembly_time_line_fields(w) == fs0);
                assert(assembly_time_line_fields(w).len() == 21);
                assert(fs0.len() == fs0_vec.len());
                assert(false);
            }
        }
        return None;
    }
    proof {
        assert(fs@ =~= fs0_vec.skip(0int));
    }
    let fx = fs.remove(0);
    proof {
        assert(fs@ =~= fs0_vec.skip(1int));
        assert(fx == fs0_vec[0]);
        assert(fx.v() == fs0[0]);
    }
    let assembly_id = match fx {
        Field::S(x) => x,
        _ => {
                proof {
                    if spec_dec_assembly_time_line(b@) is Some {
                        let w = choose|v: AssemblyTimeLineV| assembly_time_line_bounded(v) && spec_enc_assembly_time_line(v) == b@;
                        assert(spec_enc_fields(assembly_time_line_fields(w)) == b@);
                        assert(assembly_time_line_fields(w) == fs0);
                        assert(assembly_time_line_fields(w)[0] == fs0[0]);
                        assert(false);
                    }
                }
                return None;
        },
    };
    let fx = fs.remove(0);
    proof {
        assert(fs@ =~= fs0_vec.skip(2int));
        assert(fx == fs0_vec[1]);
        assert(fx.v() == fs0[1]);
    }
    let order = match fx {
        Field::S(x) => x,
        _ => {
                proof {
                    if spec_dec_assembly_time_line(b@) is Some {
                        let w = choose|v: AssemblyTimeLineV| assembly_time_line_bounded(v) && spec_enc_assembly_time_line(v) == b@;
                        assert(spec_enc_fields(assembly_time_line_fields(w)) == b@);
                        assert(assembly_time_line_fields(w) == fs0);
                        assert(assembly_time_line_fields(w)[1] == fs0[1]);
                        assert(false);
                    }
                }
                return None;
        },
    };
    let fx = fs.remove(0);
    proof {
        assert(fs@ =~= fs0_vec.skip(3int));
        assert(fx == fs0_vec[2]);
        assert(fx.v() == fs0[2]);
    }
    let product = match fx {
        Field::S(x) => x,
        _ => {
                proof {
                    if spec_dec_assembly_time_line(b@) is Some {
                        let w = choose|v: AssemblyTimeLineV| assembly_time_line_bounded(v) && spec_enc_assembly_time_line(v) == b@;
                        assert(spec_enc_fields(assembly_time_line_fields(w)) == b@);
                        assert(assembly_time_line_fields(w) == fs0);
                        assert(assembly_time_line_fields(w)[2] == fs0[2]);
                        assert(false);
                    }
                }
                return None;
        },
    };
    let fx = fs.remove(0);
    proof {
        assert(fs@ =~= fs0_vec.skip(4int));
        assert(fx == fs0_vec[3]);
        assert(fx.v() == fs0[3]);
    }
    let movements = match fx {
        Field::SList(x) => x,
        _ => {
                proof {
                    if spec_dec_assembly_time_line(b@) is Some {
                        let w = choose|v: AssemblyTimeLineV| assembly_time_line_bounded(v) && spec_enc_assembly_time_line(v) == b@;
                        assert(spec_enc_fields(assembly_time_line_fields(w)) == b@);
                        assert(assembly_time_line_fields(w) == fs0);
                        assert(assembly_time_line_fields(w)[3] == fs0[3]);
                        assert(false);
                    }
                }
                return None;
        },
    };
    let fx = fs.remove(0);
    proof {
        assert(fs@ =~= fs0_vec.skip(5int));
        assert(fx == fs0_vec[4]);
        assert(fx.v() == fs0[4]);
    }
    let components_required = match fx {
        Field::U64(x) => x,
        _ => {
                proof {
                    if spec_dec_assembly_time_line(b@) is Some {
                        let w = choose|v: AssemblyTimeLineV| assembly_time_line_bounded(v) && spec_enc_assembly_time_line(v) == b@;
                        assert(spec_enc_fields(assembly_time_line_fields(w)) == b@);
                        assert(assembly_time_line_fields(w) == fs0);
                        assert(assembly_time_line_fields(w)[4] == fs0[4]);
                        assert(false);
                    }
                }
                return None;
        },
    };
    let fx = fs.remove(0);
    proof {
        assert(fs@ =~= fs0_vec.skip(6int));
        assert(fx == fs0_vec[5]);
        assert(fx.v() == fs0[5]);
    }
    let total_components_booked = match fx {
        Field::U64(x) => x,
        _ => {
                proof {
                    if spec_dec_assembly_time_line(b@) is Some {
                        let w = choose|v: AssemblyTimeLineV| assembly_time_line_bounded(v) && spec_enc_assembly_time_line(v) == b@;
                        assert(spec_enc_fields(assembly_time_line_fields(w)) == b@);
                        assert(assembly_time_line_fields(w) == fs0);
                        assert(assembly_time_line_fields(w)[5] == fs0[5]);
                        assert(false);
                    }
                }
                return None;
        },
    };
    let fx = fs.remove(0);
    proof {
        assert(fs@ =~= fs0_vec.skip(7int));
        assert(fx == fs0_vec[6]);
        assert(fx.v() == fs0[6]);
    }
    let components = match fx {
        Field::SList(x) => x,
        _ => {
                proof {
                    if spec_dec_assembly_time_line(b@) is Some {
                        let w = choose|v: AssemblyTimeLineV| assembly_time_line_bounded(v) && spec_enc_assembly_time_line(v) == b@;
                        assert(spec_enc_fields(assembly_time_line_fields(w)) == b@);
                        assert(assembly_time_line_fields(w) == fs0);
                        assert(assembly_time_line_fields(w)[6] == fs0[6]);
                        assert(false);
                    }
                }
                return None;
        },
    };
    let fx = fs.remove(0);
    proof {
        assert(fs@ =~= fs0_vec.skip(8int));
        assert(fx == fs0_vec[7]);
        assert(fx.v() == fs0[7]);
    }
    let total_gap_components = match fx {
        Field::OptU64List(x) => x,
        _ => {
                proof {
                    if spec_dec_assembly_time_line(b@) is Some {
                        let w = choose|v: AssemblyTimeLineV| assembly_time_line_bounded(v) && spec_enc_assembly_time_line(v) == b@;
                        assert(spec_enc_fields(assembly_time_line_fields(w)) == b@);
                        assert(assembly_time_line_fields(w) == fs0);
                        assert(assembly_time_line_fields(w)[7] == fs0[7]);
                        assert(false);
                    }
                }
                return None;
        },
    };
    let fx = fs.remove(0);
    proof {
        assert(fs@ =~= fs0_vec.skip(9int));
        assert(fx == fs0_vec[8]);
        assert(fx.v() == fs0[8]);
    }
    let assembly_location = match fx {
        Field::S(x) => x,
        _ => {
                proof {
                    if spec_dec_assembly_time_line(b@) is Some {
                        let w = choose|v: AssemblyTimeLineV| assembly_time_line_bounded(v) && spec_enc_assembly_time_line(v) == b@;
                        assert(spec_enc_fields(assembly_time_line_fields(w)) == b@);
                        assert(assembly_time_line_fields(w) == fs0);
                        assert(assembly_time_line_fields(w)[8] == fs0[8]);
                        assert(false);
                    }
                }
                return None;
        },
    };
    let fx = fs.remove(0);
    proof {
        assert(fs@ =~= fs0_vec.skip(10int));
        assert(fx == fs0_vec[9]);
        assert(fx.v() == fs0[9]);
    }
    let components_received_date_year = match fx {
        Field::U64(x) => x,
        _ => {
                proof {
                    if spec_dec_assembly_time_line(b@) is Some {
                        let w = choose|v: AssemblyTimeLineV| assembly_time_line_bounded(v) && spec_enc_assembly_time_line(v) == b@;
                        assert(spec_enc_fields(assembly_time_line_fields(w)) == b@);
                        assert(assembly_time_line_fields(w) == fs0);
                        assert(assembly_time_line_fields(w)[9] == fs0[9]);
                        assert(false);
                    }
                }
                return None;
        },
    };
    let fx = fs.remove(0);
    proof {
        assert(fs@ =~= fs0_vec.skip(11int));
        assert(fx == fs0_vec[10]);
        assert(fx.v() == fs0[10]);
    }
    let components_received_date_month = match fx {
        Field::U64(x) => x,
        _ => {
                proof {
                    if spec_dec_assembly_time_line(b@) is Some {
                        let w = choose|v: AssemblyTimeLineV| assembly_time_line_bounded(v) && spec_enc_assembly_time_line(v) == b@;
                        assert(spec_enc_fields(assembly_time_line_fields(w)) == b@);
                        assert(assembly_time_line_fields(w) == fs0);
                        assert(assembly_time_line_fields(w)[10] == fs0[10]);
                        assert(false);
                    }
                }
                return None;
        },
    };
    let fx = fs.remove(0);
    proof {
        assert(fs@ =~= fs0_vec.skip(12int));
        assert(fx == fs0_vec[11]);
        assert(fx.v() == fs0[11]);
    }
    let components_received_date_day = match fx {
        Field::U64(x) => x,
        _ => {
                proof {
                    if spec_dec_assembly_time_line(b@) is Some {
                        let w = choose|v: AssemblyTimeLineV| assembly_time_line_bounded(v) && spec_enc_assembly_time_line(v) == b@;
                        assert(spec_enc_fields(assembly_time_line_fields(w)) == b@);
                        assert(assembly_time_line_fields(w) == fs0);
                        assert(assembly_time_line_fields(w)[11] == fs0[11]);
                        assert(false);
                    }
                }
                return None;
        },
    };
    let components_received_date = Date { year: components_received_date_year, month: components_received_date_month, day: components_received_date_day };
    let fx = fs.remove(0);
    proof {
        assert(fs@ =~= fs0_vec.skip(13int));
        assert(fx == fs0_vec[12]);
        assert(fx.v() == fs0[12]);
    }
    let assembly_start_date_year = match fx {
        Field::U64(x) => x,
        _ => {
                proof {
                    if spec_dec_assembly_time_line(b@) is Some {
                        let w = choose|v: AssemblyTimeLineV| assembly_time_line_bounded(v) && spec_enc_assembly_time_line(v) == b@;
                        assert(spec_enc_fields(assembly_time_line_fields(w)) == b@);
                        assert(assembly_time_line_fields(w) == fs0);
                        assert(assembly_time_line_fields(w)[12] == fs0[12]);
                        assert(false);
                    }
                }
                return None;
        },
    };
    let fx = fs.remove(0);
    proof {
        assert(fs@ =~= fs0_vec.skip(14int));
        assert(fx == fs0_vec[13]);
        assert(fx.v() == fs0[13]);
    }
    let assembly_start_date_month = match fx {
        Field::U64(x) => x,
        _ => {
                proof {
                    if spec_dec_assembly_time_line(b@) is Some {
                        let w = choose|v: AssemblyTimeLineV| assembly_time_line_bounded(v) && spec_enc_assembly_time_line(v) == b@;
                        assert(spec_enc_fields(assembly_time_line_fields(w)) == b@);
                        assert(assembly_time_line_fields(w) == fs0);
                        assert(assembly_time_line_fields(w)[13] == fs0[13]);
                        assert(false);
                    }
                }
                return None;
        },
    };
    let fx = fs.remove(0);
    proof {
        assert(fs@ =~= fs0_vec.skip(15int));
        assert(fx == fs0_vec[14]);
        assert(fx.v() == fs0[14]);
    }
    let assembly_start_date_day = match fx {
        Field::U64(x) => x,
        _ => {
                proof {
                    if spec_dec_assembly_time_line(b@) is Some {
                        let w = choose|v: AssemblyTimeLineV| assembly_time_line_bounded(v) && spec_enc_assembly_time_line(v) == b@;
                        assert(spec_enc_fields(assembly_time_line_fields(w)) == b@);
                        assert(assembly_time_line_fields(w) == fs0);
                        assert(assembly_time_line_fields(w)[14] == fs0[14]);
                        assert(false);
                    }
                }
                return None;
        },
    };
    let assembly_start_date = Date { year: assembly_start_date_year, month: assembly_start_date_month, day: assembly_start_date_day };
    let fx = fs.remove(0);
    proof {
        assert(fs@ =~= fs0_vec.skip(16int));
        assert(fx == fs0_vec[15]);
        assert(fx.v() == fs0[15]);
    }
    let assembly_end_date_year = match fx {
        Field::U64(x) => x,
        _ => {
                proof {
                    if spec_dec_assembly_time_line(b@) is Some {
                        let w = choose|v: AssemblyTimeLineV| assembly_time_line_bounded(v) && spec_enc_assembly_time_line(v) == b@;
                        assert(spec_enc_fields(assembly_time_line_fields(w)) == b@);
                        assert(assembly_time_line_fields(w) == fs0);
                        assert(assembly_time_line_fields(w)[15] == fs0[15]);
                        assert(false);
                    }
                }
                return None;
        },
    };
    let fx = fs.remove(0);
    proof {
        assert(fs@ =~= fs0_vec.skip(17int));
        assert(fx == fs0_vec[16]);
        assert(fx.v() == fs0[16]);
    }
    let assembly_end_date_month = match fx {
        Field::U64(x) => x,
        _ => {
                proof {
                    if spec_dec_assembly_time_line(b@) is Some {
                        let w = choose|v: AssemblyTimeLineV| assembly_time_line_bounded(v) && spec_enc_assembly_time_line(v) == b@;
                        assert(spec_enc_fields(assembly_time_line_fields(w)) == b@);
                        assert(assembly_time_line_fields(w) == fs0);
                        assert(assembly_time_line_fields(w)[16] == fs0[16]);
                        assert(false);
                    }
                }
                return None;
        },
    };
    let fx = fs.remove(0);
    proof {
        assert(fs@ =~= fs0_vec.skip(18int));
        assert(fx == fs0_vec[17]);
        assert(fx.v() == fs0[17]);
    }
    let assembly_end_date_day = match fx {
        Field::U64(x) => x,
        _ => {
                proof {
                    if spec_dec_assembly_time_line(b@) is Some {
                        let w = choose|v: AssemblyTimeLineV| assembly_time_line_bounded(v) && spec_enc_assembly_time_line(v) == b@;
                        assert(spec_enc_fields(assembly_time_line_fields(w)) == b@);
                        assert(assembly_time_line_fields(w) == fs0);
                        assert(assembly_time_line_fields(w)[17] == fs0[17]);
                        assert(false);
                    }
                }
                return None;
        },
    };
    let assembly_end_date = Date { year: assembly_end_date_year, month: assembly_end_date_month, day: assembly_end_date_day };
    let fx = fs.remove(0);
    proof {
        assert(fs@ =~= fs0_vec.skip(19int));
        assert(fx == fs0_vec[18]);
        assert(fx.v() == fs0[18]);
    }
    let assembly_status = match fx {
        Field::S(x) => x,
        _ => {
                proof {
                    if spec_dec_assembly_time_line(b@) is Some {
                        let w = choose|v: AssemblyTimeLineV| assembly_time_line_bounded(v) && spec_enc_assembly_time_line(v) == b@;
                        assert(spec_enc_fields(assembly_time_line_fields(w)) == b@);
                        assert(assembly_time_line_fields(w) == fs0);
                        assert(assembly_time_line_fields(w)[18] == fs0[18]);
                        assert(false);
                    }
                }
                return None;
        },
    };
    let fx = fs.remove(0);
    proof {
        assert(fs@ =~= fs0_vec.skip(20int));
        assert(fx == fs0_vec[19]);
        assert(fx.v() == fs0[19]);
    }
    let total_duration = match fx {
        Field::U64(x) => x,
        _ => {
                proof {
                    if spec_dec_assembly_time_line(b@) is Some {
                        let w = choose|v: AssemblyTimeLineV| assembly_time_line_bounded(v) && spec_enc_assembly_time_line(v) == b@;
                        assert(spec_enc_fields(assembly_time_line_fields(w)) == b@);
                        assert(assembly_time_line_fields(w) == fs0);
                        assert(assembly_time_line_fields(w)[19] == fs0[19]);
                        assert(false);
                    }
                }
                return None;
        },
    };
    let fx = fs.remove(0);
    proof {
        assert(fs@ =~= fs0_vec.skip(21int));
        assert(fx == fs0_vec[20]);
        assert(fx.v() == fs0[20]);
    }
    let assembly_notes = match fx {
        Field::OptS(x) => x,
        _ => {
                proof {
                    if spec_dec_assembly_time_line(b@) is Some {
                        let w = choose|v: AssemblyTimeLineV| assembly_time_line_bounded(v) && spec_enc_assembly_time_line(v) == b@;
                        assert(spec_enc_fields(assembly_time_line_fields(w)) == b@);
                        assert(assembly_time_line_fields(w) == fs0);
                        assert(assembly_time_line_fields(w)[20] == fs0[20]);
                        assert(false);
                    }
                }
                return None;
        },
    };
    let rec = AssemblyTimeLine { assembly_id, order, product, movements, components_required, total_components_booked, components, total_gap_components, assembly_location, components_received_date, assembly_start_date, assembly_end_date, assembly_status, total_duration, assembly_notes };
    proof {
        assert(assembly_time_line_fields(rec@)[0] == fs0[0]);
        assert(assembly_time_line_fields(rec@)[1] == fs0[1]);
        assert(assembly_time_line_fields(rec@)[2] == fs0[2]);
        assert(assembly_time_line_fields(rec@)[3] == fs0[3]);
        assert(assembly_time_line_fields(rec@)[4] == fs0[4]);
        assert(assembly_time_line_fields(rec@)[5] == fs0[5]);
        assert(assembly_time_line_fields(rec@)[6] == fs0[6]);
        assert(assembly_time_line_fields(rec@)[7] == fs0[7]);
        assert(assembly_time_line_fields(rec@)[8] == fs0[8]);
        assert(assembly_time_line_fields(rec@)[9] == fs0[9]);
        assert(assembly_time_line_fields(rec@)[10] == fs0[10]);
        assert(assembly_time_line_fields(rec@)[11] == fs0[11]);
        assert(assembly_time_line_fields(rec@)[12] == fs0[12]);
        assert(assembly_time_line_fields(rec@)[13] == fs0[13]);
        assert(assembly_time_line_fields(rec@)[14] == fs0[14]);
        assert(assembly_time_line_fields(rec@)[15] == fs0[15]);
        assert(assembly_time_line_fields(rec@)[16] == fs0[16]);
        assert(assembly_time_line_fields(rec@)[17] == fs0[17]);
        assert(assembly_time_line_fields(rec@)[18] == fs0[18]);
        assert(assembly_time_line_fields(rec@)[19] == fs0[19]);
        assert(assembly_time_line_fields(rec@)[20] == fs0[20]);
        assert(assembly_time_line_fields(rec@) =~= fs0);
        assert(spec_enc_assembly_time_line(rec@) == b@);
        assert(assembly_time_line_bounded(rec@));
        lemma_assembly_time_line_round_trip(rec@);
    }
    Some(rec)
}

/// Decodes one stored production_rate record.
pub fn dec_production_rate(b: &Vec<u8>) -> (r: Option<ProductionRate>)
    ensures
        match r {
            Some(x) => spec_dec_production_rate(b@) == Some(x@),
            None => spec_dec_production_rate(b@) is None,
        },
{
    let mut fs = match dec_fields(b) {
        Some(fs) => fs,
        None => {
            proof {
                if spec_dec_production_rate(b@) is Some {
                    let w = choose|v: ProductionRateV| production_rate_bounded(v) && spec_enc_production_rate(v) == b@;
                    assert(spec_enc_fields(production_rate_fields(w)) == b@);
                    assert(false);
                }
            }
            return None;
        },
    };
    let ghost fs0_vec = fs@;
    let ghost fs0 = views_of(fs@);
    if fs.len() != 4 {
        proof {
            if spec_dec_production_rate(b@) is Some {
                let w = choose|v: ProductionRateV| production_rate_bounded(v) && spec_enc_production_rate(v) == b@;
                assert(spec_enc_fields(production_rate_fields(w)) == b@);
                assert(production_rate_fields(w) == fs0);
                assert(production_rate_fields(w).len() == 4);
                assert(fs0.len() == fs0_vec.len());
                assert(false);
            }
        }
        return None;
    }
    proof {
        assert(fs@ =~= fs0_vec.skip(0int));
    }
    let fx = fs.remove(0);
    proof {
        assert(fs@ =~= fs0_vec.skip(1int));
        assert(fx == fs0_vec[0]);
        assert(fx.v() == fs0[0]);
    }
    let prodction_rate_id = match fx {
        Field::S(x) => x,
        _ => {
                proof {
                    if spec_dec_production_rate(b@) is Some {
                        let w = choose|v: ProductionRateV| production_rate_bounded(v) && spec_enc_production_rate(v) == b@;
                        assert(spec_enc_fields(production_rate_fields(w)) == b@);
                        assert(production_rate_fields(w) == fs0);
                        assert(production_rate_fields(w)[0] == fs0[0]);
                        assert(false);
                    }
                }
                return None;
        },
    };
    let fx = fs.remove(0);
    proof {
        assert(fs@ =~= fs0_vec.skip(2int));
        assert(fx == fs0_vec[1]);
        assert(fx.v() == fs0[1]);
    }
    let watch_model_id = match fx {
        Field::S(x) => x,
        _ => {
                proof {
                    if spec_dec_production_rate(b@) is Some {
                        let w = choose|v: ProductionRateV| production_rate_bounded(v) && spec_enc_production_rate(v) == b@;
                        assert(spec_enc_fields(production_rate_fields(w)) == b@);
                        assert(production_rate_fields(w) == fs0);
                        assert(production_rate_fields(w)[1] == fs0[1]);
                        assert(false);
                    }
                }
                return None;
        },
    };
    let fx = fs.remove(0);
    proof {
        assert(fs@ =~= fs0_vec.skip(3int));
        assert(fx == fs0_vec[2]);
        assert(fx.v() == fs0[2]);
    }
    let assembly_time_per_watch = match fx {
        Field::U64(x) => x,
        _ => {
                proof {
                    if spec_dec_production_rate(b@) is Some {
                        let w = choose|v: ProductionRateV| production_rate_bounded(v) && spec_enc_production_rate(v) == b@;
                        assert(spec_enc_fields(production_rate_fields(w)) == b@);
                        assert(production_rate_fields(w) == fs0);
                        assert(production_rate_fields(w)[2] == fs0[2]);
                        assert(false);
                    }
                }
                return None;
        },
    };
    let fx = fs.remove(0);
    proof {
        assert(fs@ =~= fs0_vec.skip(4int));
        assert(fx == fs0_vec[3]);
        assert(fx.v() == fs0[3]);
    }
    let daily_production_capacity = match fx {
        Field::U64(x) => x,
        _ => {
                proof {
                    if spec_dec_production_rate(b@) is Some {
                        let w = choose|v: ProductionRateV| production_rate_bounded(v) && spec_enc_production_rate(v) == b@;
                        assert(spec_enc_fields(production_rate_fields(w)) == b@);
                        assert(production_rate_fields(w) == fs0);
                        assert(production_rate_fields(w)[3] == fs0[3]);
                        assert(false);
                    }
                }
                return None;
        },
    };
    let rec = ProductionRate { prodction_rate_id, watch_model_id, assembly_time_per_watch, daily_production_capacity };
    proof {
        assert(production_rate_fields(rec@)[0] == fs0[0]);
        assert(production_rate_fields(rec@)[1] == fs0[1]);
        assert(production_rate_fields(rec@)[2] == fs0[2]);
        assert(production_rate_fields(rec@)[3] == fs0[3]);
        assert(production_rate_fields(rec@) =~= fs0);
        assert(spec_enc_production_rate(rec@) == b@);
        assert(production_rate_bounded(rec@));
        lemma_production_rate_round_trip(rec@);
    }
    Some(rec)
}

/// Decodes one stored recorder_point record.
pub fn dec_recorder_point(b: &Vec<u8>) -> (r: Option<RecorderPoint>)
    ensures
        match r {
            Some(x) => spec_dec_recorder_point(b@) == Some(x@),
            None => spec_dec_recorder_point(b@) is None,
        },
{
    let mut fs = match dec_fields(b) {
        Some(fs) => fs,
        None => {
            proof {
                if spec_dec_recorder_point(b@) is Some {
                    let w = choose|v: RecorderPointV| recorder_point_bounded(v) && spec_enc_recorder_point(v) == b@;
                    assert(spec_enc_fields(recorder_point_fields(w)) == b@);
                    assert(false);
                }
            }
            return None;
        },
    };
    let ghost fs0_vec = fs@;
    let ghost fs0 = views_of(fs@);
    if fs.len() != 8 {
        proof {
            if spec_dec_recorder_point(b@) is Some {
                let w = choose|v: RecorderPointV| recorder_point_bounded(v) && spec_enc_recorder_point(v) == b@;
                assert(spec_enc_fields(recorder_point_fields(w)) == b@);
                assert(recorder_point_fields(w) == fs0);
                assert(recorder_point_fields(w).len() == 8);
                assert(fs0.len() == fs0_vec.len());
                assert(false);
            }
        }
        return None;
    }
    proof {
        assert(fs@ =~= fs0_vec.skip(0int));
    }
    let fx = fs.remove(0);
    proof {
        assert(fs@ =~= fs0_vec.skip(1int));
        assert(fx == fs0_vec[0]);
        assert(fx.v() == fs0[0]);
    }
    let recorder_point_id = match fx {
        Field::S(x) => x,
        _ => {
                proof {
                    if spec_dec_recorder_point(b@) is Some {
                        let w = choose|v: RecorderPointV| recorder_point_bounded(v) && spec_enc_recorder_point(v) == b@;
                        assert(spec_enc_fields(recorder_point_fields(w)) == b@);
                        assert(recorder_point_fields(w) == fs0);
                        assert(recorder_point_fields(w)[0] == fs0[0]);
                        assert(false);
                    }
                }
                return None;
        },
    };
    let fx = fs.remove(0);
    proof {
        assert(fs@ =~= fs0_vec.skip(2int));
        assert(fx == fs0_vec[1]);
        assert(fx.v() == fs0[1]);
    }
    let component_name = match fx {
        Field::S(x) => x,
        _ => {
                proof {
                    if spec_dec_recorder_point(b@) is Some {
                        let w = choose|v: RecorderPointV| recorder_point_bounded(v) && spec_enc_recorder_point(v) == b@;
                        assert(spec_enc_fields(recorder_point_fields(w)) == b@);
                        assert(recorder_point_fields(w) == fs0);
                        assert(recorder_point_fields(w)[1] == fs0[1]);
                        assert(false);
                    }
                }
                return None;
        },
    };
    let fx = fs.remove(0);
    proof {
        assert(fs@ =~= fs0_vec.skip(3int));
        assert(fx == fs0_vec[2]);
        assert(fx.v() == fs0[2]);
    }
    let supplier_lead_time = match fx {
        Field::U64(x) => x,
        _ => {
                proof {
                    if spec_dec_recorder_point(b@) is Some {
                        let w = choose|v: RecorderPointV| recorder_point_bounded(v) && spec_enc_recorder_point(v) == b@;
                        assert(spec_enc_fields(recorder_point_fields(w)) == b@);
                        assert(recorder_point_fields(w) == fs0);
                        assert(recorder_point_fields(w)[2] == fs0[2]);
                        assert(false);
                    }
                }
                return None;
        },
    };
    let fx = fs.remove(0);
    proof {
        assert(fs@ =~= fs0_vec.skip(4int));
        assert(fx == fs0_vec[3]);
        assert(fx.v() == fs0[3]);
    }
    let assumed_daily_usage = match fx {
        Field::U64(x) => x,
        _ => {
                proof {
                    if spec_dec_recorder_point(b@) is Some {
                        let w = choose|v: RecorderPointV| recorder_point_bounded(v) && spec_enc_recorder_point(v) == b@;
                        assert(spec_enc_fields(recorder_point_fields(w)) == b@);
                        assert(recorder_point_fields(w) == fs0);
                        assert(recorder_point_fields(w)[3] == fs0[3]);
                        assert(false);
                    }
                }
                return None;
        },
    };
    let fx = fs.remove(0);
    proof {
        assert(fs@ =~= fs0_vec.skip(5int));
        assert(fx == fs0_vec[4]);
        assert(fx.v() == fs0[4]);
    }
    let lead_time_demand = match fx {
        Field::U64(x) => x,
        _ => {
                proof {
                    if spec_dec_recorder_point(b@) is Some {
                        let w = choose|v: RecorderPointV| recorder_point_bounded(v) && spec_enc_recorder_point(v) == b@;
                        assert(spec_enc_fields(recorder_point_fields(w)) == b@);
                        assert(recorder_point_fields(w) == fs0);
                        assert(recorder_point_fields(w)[4] == fs0[4]);
                        assert(false);
                    }
                }
                return None;
        },
    };
    let fx = fs.remove(0);
    proof {
        assert(fs@ =~= fs0_vec.skip(6int));
        assert(fx == fs0_vec[5]);
        assert(fx.v() == fs0[5]);
    }
    let safety_stock = match fx {
        Field::U64(x) => x,
        _ => {
                proof {
                    if spec_dec_recorder_point(b@) is Some {
                        let w = choose|v: RecorderPointV| recorder_point_bounded(v) && spec_enc_recorder_point(v) == b@;
                        assert(spec_enc_fields(recorder_point_fields(w)) == b@);
                        assert(recorder_point_fields(w) == fs0);
                        assert(recorder_point_fields(w)[5] == fs0[5]);
                        assert(false);
                    }
                }
                return None;
        },
    };
    let fx = fs.remove(0);
    proof {
        assert(fs@ =~= fs0_vec.skip(7int));
        assert(fx == fs0_vec[6]);
        assert(fx.v() == fs0[6]);
    }
    let reorder_point = match fx {
        Field::U64(x) => x,
        _ => {
                proof {
                    if spec_dec_recorder_point(b@) is Some {
                        let w = choose|v: RecorderPointV| recorder_point_bounded(v) && spec_enc_recorder_point(v) == b@;
                        assert(spec_enc_fields(recorder_point_fields(w)) == b@);
                        assert(recorder_point_fields(w) == fs0);
                        assert(recorder_point_fields(w)[6] == fs0[6]);
                        assert(false);
                    }
                }
                return None;
        },
    };
    let fx = fs.remove(0);
    proof {
        assert(fs@ =~= fs0_vec.skip(8int));
        assert(fx == fs0_vec[7]);
        assert(fx.v() == fs0[7]);
    }
    let need_to_order = match fx {
        Field::B(x) => x,
        _ => {
                proof {
                    if spec_dec_recorder_point(b@) is Some {
                        let w = choose|v: RecorderPointV| recorder_point_bounded(v) && spec_enc_recorder_point(v) == b@;
                        assert(spec_enc_fields(recorder_point_fields(w)) == b@);
                        assert(recorder_point_fields(w) == fs0);
                        assert(recorder_point_fields(w)[7] == fs0[7]);
                        assert(false);
                    }
                }
                return None;
        },
    };
    let rec = RecorderPoint { recorder_point_id, component_name, supplier_lead_time, assumed_daily_usage, lead_time_demand, safety_stock, reorder_point, need_to_order };
    proof {
        assert(recorder_point_fields(rec@)[0] == fs0[0]);
        assert(recorder_point_fields(rec@)[1] == fs0[1]);
        assert(recorder_point_fields(rec@)[2] == fs0[2]);
        assert(recorder_point_fields(rec@)[3] == fs0[3]);
        assert(recorder_point_fields(rec@)[4] == fs0[4]);
        assert(recorder_point_fields(rec@)[5] == fs0[5]);
        assert(recorder_point_fields(rec@)[6] == fs0[6]);
        assert(recorder_point_fields(rec@)[7] == fs0[7]);
        assert(recorder_point_fields(rec@) =~= fs0);
        assert(spec_enc_recorder_point(rec@) == b@);
        assert(recorder_point_bounded(rec@));
        lemma_recorder_point_round_trip(rec@);
    }
    Some(rec)
}

/// Decodes one stored watches record.
pub fn dec_watches(b: &Vec<u8>) -> (r: Option<Watches>)
    ensures
        match r {
            Some(x) => spec_dec_watches(b@) == Some(x@),
            None => spec_dec_watches(b@) is None,
        },
{
    let mut fs = match dec_fields(b) {
        Some(fs) => fs,
        None => {
            proof {
                if spec_dec_watches(b@) is Some {
                    let w = choose|v: WatchesV| watches_bounded(v) && spec_enc_watches(v) == b@;
                    assert(spec_enc_fields(watches_fields(w)) == b@);
                    assert(false);
                }
            }
            return None;
        },
    };
    let ghost fs0_vec = fs@;
    let ghost fs0 = views_of(fs@);
    if fs.len() != 5 {
        proof {
            if spec_dec_watches(b@) is Some {
                let w = choose|v: WatchesV| watches_bounded(v) && spec_enc_watches(v) == b@;
                assert(spec_enc_fields(watches_fields(w)) == b@);
                assert(watches_fields(w) == fs0);
                assert(watches_fields(w).len() == 5);
                assert(fs0.len() == fs0_vec.len());
                assert(false);
            }
        }
        return None;
    }
    proof {
        assert(fs@ =~= fs0_vec.skip(0int));
    }
    let fx = fs.remove(0);
    proof {
        assert(fs@ =~= fs0_vec.skip(1int));
        assert(fx == fs0_vec[0]);
        assert(fx.v() == fs0[0]);
    }
    let watch_id = match fx {
        Field::S(x) => x,
        _ => {
                proof {
                    if spec_dec_watches(b@) is Some {
                        let w = choose|v: WatchesV| watches_bounded(v) && spec_enc_watches(v) == b@;
                        assert(spec_enc_fields(watches_fields(w)) == b@);
                        assert(watches_fields(w) == fs0);
                        assert(watches_fields(w)[0] == fs0[0]);
                        assert(false);
                    }
                }
                return None;
        },
    };
    let fx = fs.remove(0);
    proof {
        assert(fs@ =~= fs0_vec.skip(2int));
        assert(fx == fs0_vec[1]);
        assert(fx.v() == fs0[1]);
    }
    let watch_model_id = match fx {
        Field::S(x) => x,
        _ => {
                proof {
                    if spec_dec_watches(b@) is Some {
                        let w = choose|v: WatchesV| watches_bounded(v) && spec_enc_watches(v) == b@;
                        assert(spec_enc_fields(watches_fields(w)) == b@);
                        assert(watches_fields(w) == fs0);
                        assert(watches_fields(w)[1] == fs0[1]);
                        assert(false);
                    }
                }
                return None;
        },
    };
    let fx = fs.remove(0);
    proof {
        assert(fs@ =~= fs0_vec.skip(3int));
        assert(fx == fs0_vec[2]);
        assert(fx.v() == fs0[2]);
    }
    let brand = match fx {
        Field::S(x) => x,
        _ => {
                proof {
                    if spec_dec_watches(b@) is Some {
                        let w = choose|v: WatchesV| watches_bounded(v) && spec_enc_watches(v) == b@;
                        assert(spec_enc_fields(watches_fields(w)) == b@);
                        assert(watches_fields(w) == fs0);
                        assert(watches_fields(w)[2] == fs0[2]);
                        assert(false);
                    }
                }
                return None;
        },
    };
    let fx = fs.remove(0);
    proof {
        assert(fs@ =~= fs0_vec.skip(4int));
        assert(fx == fs0_vec[3]);
        assert(fx.v() == fs0[3]);
    }
    let component_id = match fx {
        Field::S(x) => x,
        _ => {
                proof {
                    if spec_dec_watches(b@) is Some {
                        let w = choose|v: WatchesV| watches_bounded(v) && spec_enc_watches(v) == b@;
                        assert(spec_enc_fields(watches_fields(w)) == b@);
                        assert(watches_fields(w) == fs0);
                        assert(watches_fields(w)[3] == fs0[3]);
                        assert(false);
                    }
                }
                return None;
        },
    };
    let fx = fs.remove(0);
    proof {
        assert(fs@ =~= fs0_vec.skip(5int));
        assert(fx == fs0_vec[4]);
        assert(fx.v() == fs0[4]);
    }
    let required_quantity = match fx {
        Field::U64(x) => x,
        _ => {
                proof {
                    if spec_dec_watches(b@) is Some {
                        let w = choose|v: WatchesV| watches_bounded(v) && spec_enc_watches(v) == b@;
                        assert(spec_enc_fields(watches_fields(w)) == b@);
                        assert(watches_fields(w) == fs0);
                        assert(watches_fields(w)[4] == fs0[4]);
                        assert(false);
                    }
                }
                return None;
        },
    };
    let rec = Watches { watch_id, watch_model_id, brand, component_id, required_quantity };
    proof {
        assert(watches_fields(rec@)[0] == fs0[0]);
        assert(watches_fields(rec@)[1] == fs0[1]);
        assert(watches_fields(rec@)[2] == fs0[2]);
        assert(watches_fields(rec@)[3] == fs0[3]);
        assert(watches_fields(rec@)[4] == fs0[4]);
        assert(watches_fields(rec@) =~= fs0);
        assert(spec_enc_watches(rec@) == b@);
        assert(watches_bounded(rec@));
        lemma_watches_round_trip(rec@);
    }
    Some(rec)
}


// ---------------------------------------------------------------------------
// Procurement groups.  The group's procurements are stored as a list of byte
// strings, each the encoding of one procurement record.
// ---------------------------------------------------------------------------

/// The field list of one procurements record.
pub open spec fn procurements_fields(v: ProcurementsV) -> Seq<FieldV> {
    seq![
        FieldV::S(v.procurement_id),
        FieldV::S(v.order_id),
        FieldV::BytesList(v.procurements.map_values(|p: ProcurementV| spec_enc_procurement(p))),
    ]
}

/// All length prefixes of the record fit their `u64` slots.
pub open spec fn procurements_bounded(v: ProcurementsV) -> bool {
    fields_bounded(procurements_fields(v)) && (forall|k: int|
        0 <= k < v.procurements.len() ==> procurement_bounded(#[trigger] v.procurements[k]))
}

/// The stored encoding of one procurements record.
pub open spec fn spec_enc_procurements(v: ProcurementsV) -> Seq<u8> {
    spec_enc_fields(procurements_fields(v))
}

/// Decoding is the partial inverse of encoding.
pub open spec fn spec_dec_procurements(b: Seq<u8>) -> Option<ProcurementsV> {
    if exists|v: ProcurementsV| procurements_bounded(v) && spec_enc_procurements(v) == b {
        Some(choose|v: ProcurementsV| procurements_bounded(v) && spec_enc_procurements(v) == b)
    } else {
        None
    }
}

/// What a successful decode means: the value is bounded and encodes back.
proof fn lemma_spec_dec_procurement_props(b: Seq<u8>, p: ProcurementV)
    requires
        spec_dec_procurement(b) == Some(p),
    ensures
        procurement_bounded(p),
        spec_enc_procurement(p) == b,
{
    let w = choose|v: ProcurementV| procurement_bounded(v) && spec_enc_procurement(v) == b;
    assert(procurement_bounded(w) && spec_enc_procurement(w) == b);
}

proof fn lemma_procurements_fields_inj(v1: ProcurementsV, v2: ProcurementsV)
    requires
        procurements_bounded(v1),
        procurements_bounded(v2),
        procurements_fields(v1) == procurements_fields(v2),
    ensures
        v1 == v2,
{
    let m1 = v1.procurements.map_values(|p: ProcurementV| spec_enc_procurement(p));
    let m2 = v2.procurements.map_values(|p: ProcurementV| spec_enc_procurement(p));
    assert(procurements_fields(v1)[0] == procurements_fields(v2)[0]);
    assert(procurements_fields(v1)[1] == procurements_fields(v2)[1]);
    assert(procurements_fields(v1)[2] == procurements_fields(v2)[2]);
    assert(m1 == m2);
    assert(v1.procurements.len() == v2.procurements.len());
    assert forall|k: int|
        0 <= k < v1.procurements.len() implies v1.procurements[k] == v2.procurements[k] by {
        assert(m1[k] == m2[k]);
        lemma_enc_fields_inj(
            procurement_fields(v1.procurements[k]),
            procurement_fields(v2.procurements[k]),
        );
        lemma_procurement_fields_inj(v1.procurements[k], v2.procurements[k]);
    }
    assert(v1.procurements =~= v2.procurements);
}

/// Decoding inverts encoding on every bounded procurements record value.
pub proof fn lemma_procurements_round_trip(v: ProcurementsV)
    requires
        procurements_bounded(v),
    ensures
        spec_dec_procurements(spec_enc_procurements(v)) == Some(v),
{
    let b = spec_enc_procurements(v);
    assert(procurements_bounded(v) && spec_enc_procurements(v) == b);
    let w = choose|w: ProcurementsV| procurements_bounded(w) && spec_enc_procurements(w) == b;
    lemma_enc_fields_inj(procurements_fields(w), procurements_fields(v));
    lemma_procurements_fields_inj(w, v);
}

/// Encodes one procurements record for storage.
pub fn enc_procurements(r: &Procurements) -> (out: Vec<u8>)
    ensures
        out@ == spec_enc_procurements(r@),
        procurements_bounded(r@),
{
    let mut blobs: Vec<Vec<u8>> = Vec::new();
    let mut k: usize = 0;
    while k < r.procurements.len()
        invariant
            k <= r.procurements@.len(),
            blobs.deep_view().len() == k,
            forall|q: int|
                0 <= q < k ==> #[trigger] blobs.deep_view()[q] == spec_enc_procurement(
                    r@.procurements[q],
                ),
            forall|q: int| 0 <= q < k ==> procurement_bounded(#[trigger] r@.procurements[q]),
        decreases r.procurements@.len() - k,
    {
        let ghost old_blobs = blobs;
        let blob = enc_procurement(&r.procurements[k]);
        blobs.push(blob);
        proof {
            assert(blobs.deep_view() =~~= old_blobs.deep_view().push(
                spec_enc_procurement(r@.procurements[k as int]),
            ));
        }
        k = k + 1;
    }
    let ghost blobs_v = blobs.deep_view();
    let mut fs: Vec<Field> = Vec::new();
    fs.push(Field::S(r.procurement_id.clone()));
    fs.push(Field::S(r.order_id.clone()));
    fs.push(Field::BytesList(blobs));
    let out = enc_fields(&fs);
    proof {
        assert(blobs_v =~= r@.procurements.map_values(|p: ProcurementV| spec_enc_procurement(p)));
        assert(views_of(fs@) =~= procurements_fields(r@));
    }
    out
}

/// Decodes one stored procurements record.
pub fn dec_procurements(b: &Vec<u8>) -> (r: Option<Procurements>)
    ensures
        match r {
            Some(x) => spec_dec_procurements(b@) == Some(x@),
            None => spec_dec_procurements(b@) is None,
        },
{
    let mut fs = match dec_fields(b) {
        Some(fs) => fs,
        None => {
            proof {
                if spec_dec_procurements(b@) is Some {
                    let w = choose|v: ProcurementsV|
                        procurements_bounded(v) && spec_enc_procurements(v) == b@;
                    assert(spec_enc_fields(procurements_fields(w)) == b@);
                    assert(false);
                }
            }
            return None;
        },
    };
    let ghost fs0_vec = fs@;
    let ghost fs0 = views_of(fs@);
    if fs.len() != 3 {
        proof {
            if spec_dec_procurements(b@) is Some {
                let w = choose|v: ProcurementsV|
                    procurements_bounded(v) && spec_enc_procurements(v) == b@;
                assert(spec_enc_fields(procurements_fields(w)) == b@);
                assert(procurements_fields(w) == fs0);
                assert(procurements_fields(w).len() == 3);
                assert(fs0.len() == fs0_vec.len());
                assert(false);
            }
        }
        return None;
    }
    proof {
        assert(fs@ =~= fs0_vec.skip(0int));
    }
    let fx = fs.remove(0);
    proof {
        assert(fs@ =~= fs0_vec.skip(1int));
        assert(fx == fs0_vec[0]);
        assert(fx.v() == fs0[0]);
    }
    let procurement_id = match fx {
        Field::S(x) => x,
        _ => {
            proof {
                if spec_dec_procurements(b@) is Some {
                    let w = choose|v: ProcurementsV|
                        procurements_bounded(v) && spec_enc_procurements(v) == b@;
                    assert(spec_enc_fields(procurements_fields(w)) == b@);
                    assert(procurements_fields(w) == fs0);
                    assert(procurements_fields(w)[0] == fs0[0]);
                    assert(false);
                }
            }
            return None;
        },
    };
    let fx = fs.remove(0);
    proof {
        assert(fs@ =~= fs0_vec.skip(2int));
        assert(fx == fs0_vec[1]);
        assert(fx.v() == fs0[1]);
    }
    let order_id = match fx {
        Field::S(x) => x,
        _ => {
            proof {
                if spec_dec_procurements(b@) is Some {
                    let w = choose|v: ProcurementsV|
                        procurements_bounded(v) && spec_enc_procurements(v) == b@;
                    assert(spec_enc_fields(procurements_fields(w)) == b@);
                    assert(procurements_fields(w) == fs0);
                    assert(procurements_fields(w)[1] == fs0[1]);
                    assert(false);
                }
            }
            return None;
        },
    };
    let fx = fs.remove(0);
    proof {
        assert(fx == fs0_vec[2]);
        assert(fx.v() == fs0[2]);
    }
    let blobs = match fx {
        Field::BytesList(x) => x,
        _ => {
            proof {
                if spec_dec_procurements(b@) is Some {
                    let w = choose|v: ProcurementsV|
                        procurements_bounded(v) && spec_enc_procurements(v) == b@;
                    assert(spec_enc_fields(procurements_fields(w)) == b@);
                    assert(procurements_fields(w) == fs0);
                    assert(procurements_fields(w)[2] == fs0[2]);
                    assert(false);
                }
            }
            return None;
        },
    };
    let ghost blobs_v = blobs.deep_view();
    let mut procs: Vec<Procurement> = Vec::new();
    let mut k: usize = 0;
    while k < blobs.len()
        invariant
            k <= blobs@.len(),
            procs@.len() == k,
            blobs.deep_view() == blobs_v,
            blobs_v.len() == blobs@.len(),
            fs0[2] == FieldV::BytesList(blobs_v),
            fs0.len() == 3,
            views_of(fs0_vec) == fs0,
            b@ == spec_enc_fields(fs0),
            fields_bounded(fs0),
            forall|q: int|
                0 <= q < k ==> spec_dec_procurement(blobs_v[q]) == Some(#[trigger] procs@[q]@),
        decreases blobs@.len() - k,
    {
        match dec_procurement(&blobs[k]) {
            Some(p) => {
                procs.push(p);
                proof {
                    assert(blobs@[k as int]@ == blobs_v[k as int]);
                }
                k = k + 1;
            },
            None => {
                proof {
                    if spec_dec_procurements(b@) is Some {
                        let w = choose|v: ProcurementsV|
                            procurements_bounded(v) && spec_enc_procurements(v) == b@;
                        assert(spec_enc_fields(procurements_fields(w)) == b@);
                        lemma_enc_fields_inj(procurements_fields(w), fs0);
                        assert(procurements_fields(w)[2] == fs0[2]);
                        let m = w.procurements.map_values(
                            |p: ProcurementV| spec_enc_procurement(p),
                        );
                        assert(blobs_v == m);
                        assert(blobs_v[k as int] == spec_enc_procurement(
                            w.procurements[k as int],
                        ));
                        lemma_procurement_round_trip(w.procurements[k as int]);
                        assert(blobs@[k as int]@ == blobs_v[k as int]);
                        assert(false);
                    }
                }
                return None;
            },
        }
    }
    let rec = Procurements { procurement_id, order_id, procurements: procs };
    proof {
        assert forall|q: int|
            0 <= q < rec@.procurements.len() implies procurement_bounded(#[trigger] rec@
                .procurements[q]) && spec_enc_procurement(rec@.procurements[q]) == blobs_v[q] by {
            assert(rec@.procurements[q] == procs@[q]@);
            lemma_spec_dec_procurement_props(blobs_v[q], procs@[q]@);
        }
        assert(rec@.procurements.map_values(|p: ProcurementV| spec_enc_procurement(p)) =~= blobs_v);
        assert(procurements_fields(rec@)[0] == fs0[0]);
        assert(procurements_fields(rec@)[1] == fs0[1]);
        assert(procurements_fields(rec@)[2] == fs0[2]);
        assert(procurements_fields(rec@) =~= fs0);
        assert(spec_enc_procurements(rec@) == b@);
        assert(procurements_bounded(rec@));
        lemma_procurements_round_trip(rec@);
    }
    Some(rec)
}

} // verus!
