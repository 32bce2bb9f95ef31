//! The transactional store: ten keyed tables in one embedded LMDB
//! environment, accessed through heed.
//!
//! The store is modelled by the map from table name to table contents, each
//! table a map from key to the stored bytes.  Every operation's contract is
//! stated against that model.  The handful of functions marked
//! `external_body` are the trusted boundary around heed: each performs one
//! whole transaction, so a failed operation leaves every table as it was.
//!
//! The store owns its environment outright: nothing else in the process, and
//! no other process, is expected to touch the environment's directory.

use vstd::prelude::*;
use crate::codec::{FieldV, field_bounded, str_bounded};
use crate::records::{
    Products, ProductsV, Components, ComponentsV, Movements, MovementsV, SuppliersOrders,
    SuppliersOrdersV, Orders, OrdersV, Procurements, ProcurementsV, AssemblyTimeLine,
    AssemblyTimeLineV, ProductionRate, ProductionRateV, RecorderPoint, RecorderPointV, Watches,
    WatchesV,
};
use crate::record_codec::{
    spec_enc_products, spec_dec_products, enc_products, dec_products, products_bounded,
    spec_enc_components, spec_dec_components, enc_components, dec_components, components_bounded,
    spec_enc_movements, spec_dec_movements, enc_movements, dec_movements, movements_bounded,
    spec_enc_suppliers_orders, spec_dec_suppliers_orders, enc_suppliers_orders,
    dec_suppliers_orders, suppliers_orders_bounded, spec_enc_orders, spec_dec_orders, enc_orders,
    dec_orders, orders_bounded, spec_enc_procurements, spec_dec_procurements, enc_procurements,
    dec_procurements, procurements_bounded, spec_enc_assembly_time_line,
    spec_dec_assembly_time_line, enc_assembly_time_line, dec_assembly_time_line,
    assembly_time_line_bounded, spec_enc_production_rate, spec_dec_production_rate,
    enc_production_rate, dec_production_rate, production_rate_bounded, spec_enc_recorder_point,
    spec_dec_recorder_point, enc_recorder_point, dec_recorder_point, recorder_point_bounded,
    spec_enc_watches, spec_dec_watches, enc_watches, dec_watches, watches_bounded,
    lemma_products_round_trip, lemma_components_round_trip, lemma_movements_round_trip,
    lemma_suppliers_orders_round_trip, lemma_orders_round_trip, lemma_procurements_round_trip,
    lemma_assembly_time_line_round_trip, lemma_production_rate_round_trip,
    lemma_recorder_point_round_trip, lemma_watches_round_trip, components_fields,
};
use crate::movement::{
    MovementFault, spec_move_component, move_component, spec_link_component, link_component,
    spec_level_of, level_of, lemma_link_idempotent, lemma_link_exactly_once, occurrences,
};

verus! {

#[verifier::external_type_specification]
#[verifier::external_body]
pub struct ExEnv(heed::Env);

#[verifier::external_type_specification]
#[verifier::external_body]
#[verifier::reject_recursive_types(KC)]
#[verifier::reject_recursive_types(DC)]
pub struct ExDatabase<KC, DC>(heed::Database<KC, DC>);

#[verifier::external_type_specification]
#[verifier::external_body]
pub struct ExStr(heed::types::Str);

#[verifier::external_type_specification]
#[verifier::external_body]
#[verifier::reject_recursive_types(T)]
pub struct ExUnalignedSlice<T>(heed::types::UnalignedSlice<T>);

/// One keyed table: string keys, plain byte values.
pub type RawTable = heed::Database<heed::types::Str, heed::types::ByteSlice>;

/// The name a table was created under.
pub uninterp spec fn db_table_name(db: RawTable) -> Seq<char>;

/// The identity of the environment a table belongs to.
pub uninterp spec fn db_env_ident(db: RawTable) -> int;

/// The identity of an environment.
pub uninterp spec fn env_ident(env: heed::Env) -> int;

/// The abstract contents of the store: table contents by table name.
pub type TablesV = Map<Seq<char>, Map<Seq<char>, Seq<u8>>>;

/// How a store operation fails.
#[derive(Clone, Debug)]
pub enum StoreError {
    /// The storage engine refused a transaction or an access; the text is
    /// its own description of the failure.
    Storage(String),
    /// Stored bytes did not decode to the expected record shape.
    Corrupted,
    /// The movement's source location holds less than the moved quantity.
    InsufficientStock,
    /// The movement would overflow the destination counter.
    QuantityOverflow,
}

impl StoreError {
    /// A short description of the failure.
    pub fn message(&self) -> (r: String)
        ensures
            self matches StoreError::Storage(s) ==> r@ == s@,
            self matches StoreError::Corrupted ==> r@ == "stored record bytes are corrupted"@,
            self matches StoreError::InsufficientStock ==> r@
                == "source location holds less than the moved quantity"@,
            self matches StoreError::QuantityOverflow ==> r@
                == "destination count would overflow"@,
    {
        match self {
            StoreError::Storage(s) => s.clone(),
            StoreError::Corrupted => "stored record bytes are corrupted".to_owned(),
            StoreError::InsufficientStock => "source location holds less than the moved quantity".to_owned(),
            StoreError::QuantityOverflow => "destination count would overflow".to_owned(),
        }
    }
}

pub open spec fn products_table() -> Seq<char> {
    "products"@
}

pub open spec fn components_table() -> Seq<char> {
    "components"@
}

pub open spec fn movements_table() -> Seq<char> {
    "movements"@
}

pub open spec fn suppliers_orders_table() -> Seq<char> {
    "suppliers_orders"@
}

pub open spec fn orders_table() -> Seq<char> {
    "orders"@
}

pub open spec fn procurements_table() -> Seq<char> {
    "procurements"@
}

pub open spec fn assembly_timeline_table() -> Seq<char> {
    "assembly_timeline"@
}

pub open spec fn production_rate_table() -> Seq<char> {
    "production_rate"@
}

pub open spec fn recorder_point_table() -> Seq<char> {
    "recorder_point"@
}

pub open spec fn watches_table() -> Seq<char> {
    "watches"@
}

/// The ten table names are pairwise distinct: their lengths already differ.
pub proof fn lemma_table_names_distinct()
    ensures
        products_table() != components_table(),
        products_table() != movements_table(),
        products_table() != suppliers_orders_table(),
        products_table() != orders_table(),
        products_table() != procurements_table(),
        products_table() != assembly_timeline_table(),
        products_table() != production_rate_table(),
        products_table() != recorder_point_table(),
        products_table() != watches_table(),
        components_table() != movements_table(),
        components_table() != suppliers_orders_table(),
        components_table() != orders_table(),
        components_table() != procurements_table(),
        components_table() != assembly_timeline_table(),
        components_table() != production_rate_table(),
        components_table() != recorder_point_table(),
        components_table() != watches_table(),
        movements_table() != suppliers_orders_table(),
        movements_table() != orders_table(),
        movements_table() != procurements_table(),
        movements_table() != assembly_timeline_table(),
        movements_table() != production_rate_table(),
        movements_table() != recorder_point_table(),
        movements_table() != watches_table(),
        suppliers_orders_table() != orders_table(),
        suppliers_orders_table() != procurements_table(),
        suppliers_orders_table() != assembly_timeline_table(),
        suppliers_orders_table() != production_rate_table(),
        suppliers_orders_table() != recorder_point_table(),
        suppliers_orders_table() != watches_table(),
        orders_table() != procurements_table(),
        orders_table() != assembly_timeline_table(),
        orders_table() != production_rate_table(),
        orders_table() != recorder_point_table(),
        orders_table() != watches_table(),
        procurements_table() != assembly_timeline_table(),
        procurements_table() != production_rate_table(),
        procurements_table() != recorder_point_table(),
        procurements_table() != watches_table(),
        assembly_timeline_table() != production_rate_table(),
        assembly_timeline_table() != recorder_point_table(),
        assembly_timeline_table() != watches_table(),
        production_rate_table() != recorder_point_table(),
        production_rate_table() != watches_table(),
        recorder_point_table() != watches_table(),
{
    reveal_strlit("products");
    reveal_strlit("components");
    reveal_strlit("movements");
    reveal_strlit("suppliers_orders");
    reveal_strlit("orders");
    reveal_strlit("procurements");
    reveal_strlit("assembly_timeline");
    reveal_strlit("production_rate");
    reveal_strlit("recorder_point");
    reveal_strlit("watches");
    assert(products_table().len() == 8);
    assert(components_table().len() == 10);
    assert(movements_table().len() == 9);
    assert(suppliers_orders_table().len() == 16);
    assert(orders_table().len() == 6);
    assert(procurements_table().len() == 12);
    assert(assembly_timeline_table().len() == 17);
    assert(production_rate_table().len() == 15);
    assert(recorder_point_table().len() == 14);
    assert(watches_table().len() == 7);
}

struct DbHandles {
    env: heed::Env,
    products: RawTable,
    components: RawTable,
    movements: RawTable,
    suppliers_orders: RawTable,
    orders: RawTable,
    procurements: RawTable,
    assembly_timeline: RawTable,
    production_rate: RawTable,
    recorder_point: RawTable,
    watches: RawTable,
}

/// The store: ten keyed tables in one embedded environment.
pub struct InventoryDB {
    hs: DbHandles,
    state: Ghost<TablesV>,
}

impl InventoryDB {
    /// The abstract contents of the ten tables.
    pub closed spec fn tables(self) -> TablesV {
        self.state@
    }

    /// Each handle is attached to its named table of the one environment.
    pub closed spec fn wf(self) -> bool {
        &&& db_env_ident(self.hs.products) == env_ident(self.hs.env)
        &&& db_env_ident(self.hs.components) == env_ident(self.hs.env)
        &&& db_env_ident(self.hs.movements) == env_ident(self.hs.env)
        &&& db_env_ident(self.hs.suppliers_orders) == env_ident(self.hs.env)
        &&& db_env_ident(self.hs.orders) == env_ident(self.hs.env)
        &&& db_env_ident(self.hs.procurements) == env_ident(self.hs.env)
        &&& db_env_ident(self.hs.assembly_timeline) == env_ident(self.hs.env)
        &&& db_env_ident(self.hs.production_rate) == env_ident(self.hs.env)
        &&& db_env_ident(self.hs.recorder_point) == env_ident(self.hs.env)
        &&& db_env_ident(self.hs.watches) == env_ident(self.hs.env)
        &&& db_table_name(self.hs.products) == products_table()
        &&& db_table_name(self.hs.components) == components_table()
        &&& db_table_name(self.hs.movements) == movements_table()
        &&& db_table_name(self.hs.suppliers_orders) == suppliers_orders_table()
        &&& db_table_name(self.hs.orders) == orders_table()
        &&& db_table_name(self.hs.procurements) == procurements_table()
        &&& db_table_name(self.hs.assembly_timeline) == assembly_timeline_table()
        &&& db_table_name(self.hs.production_rate) == production_rate_table()
        &&& db_table_name(self.hs.recorder_point) == recorder_point_table()
        &&& db_table_name(self.hs.watches) == watches_table()
    }
}

// ---------------------------------------------------------------------------
// The trusted boundary around heed.  Each function performs one whole
// transaction; heed commits a transaction as a unit, so a failure leaves the
// environment exactly as it was.
// ---------------------------------------------------------------------------

/// Whether a name can be handed to the storage engine, which turns it into
/// a C string: it holds no NUL character.
pub open spec fn no_nul(s: Seq<char>) -> bool {
    forall|k: int| 0 <= k < s.len() ==> (#[trigger] s[k]) != '\0'
}

/// Relies on std::path::Path::canonicalize, heed::env_closing_event and
/// heed::EnvOpenOptions::open: it opens or creates the LMDB environment in
/// an existing directory, with room for the ten tables, and refuses a path
/// whose environment is already open in this process.
///
/// The refusal carries the model's one assumption: this store is its
/// environment's only live handle.  heed hands out aliases of an already
/// open environment instead of reopening it, and two live stores over one
/// environment would each hold a model that the other's writes falsify.
/// [`InventoryDB::close`] releases the environment so the path can be
/// opened again.  Other processes are assumed, as spec'd for an embedded
/// single-process store, not to touch the environment's files.
#[verifier::external_body]
fn open_env(path: &str) -> (r: Result<heed::Env, StoreError>) {
    let canonical = std::path::Path::new(path).canonicalize().map_err(
        |e| StoreError::Storage(e.to_string()),
    )?;
    if heed::env_closing_event(&canonical).is_some() {
        return Err(StoreError::Storage("environment already open in this process".to_string()));
    }
    heed::EnvOpenOptions::new().map_size(1024 * 1024 * 1024).max_dbs(10).open(canonical).map_err(
        |e| StoreError::Storage(e.to_string()),
    )
}

/// Relies on heed::Env::create_database: it creates or re-attaches the named
/// table of this environment, keeping any data the table already holds.
/// heed turns the name into a C string and would panic on an embedded NUL
/// character; the `requires` excludes that input.
#[verifier::external_body]
fn create_table(env: &heed::Env, name: &str) -> (r: Result<RawTable, StoreError>)
    requires
        no_nul(name@),
    ensures
        r matches Ok(db) ==> db_table_name(db) == name@ && db_env_ident(db) == env_ident(*env),
{
    env.create_database(Some(name)).map_err(|e| StoreError::Storage(e.to_string()))
}

impl InventoryDB {
    /// Relies on heed::Env::read_txn: a transaction opens against the
    /// tables as they stand on disk.  The call attaches the model to those
    /// contents: nothing is stated of `tables()` afterwards, so nothing is
    /// assumed of what the environment already held.
    #[verifier::external_body]
    fn attach_to_disk(&mut self) -> (r: Result<(), StoreError>)
        ensures
            final(self).hs == old(self).hs,
            r matches Err(e) ==> e matches StoreError::Storage(_),
    {
        match self.hs.env.read_txn() {
            Ok(_) => Ok(()),
            Err(e) => Err(StoreError::Storage(e.to_string())),
        }
    }

    /// Relies on heed::Env::read_txn and heed::Database::get: one read
    /// transaction sees the table's current entry under the key, or its
    /// absence.
    #[verifier::external_body]
    fn raw_get(&self, db: RawTable, key: &str) -> (r: Result<Option<Vec<u8>>, StoreError>)
        requires
            db_env_ident(db) == env_ident(self.hs.env),
        ensures
            r matches Ok(o) ==> match o {
                Some(v) => self.tables()[db_table_name(db)].contains_key(key@)
                    && self.tables()[db_table_name(db)][key@] == v@,
                None => !self.tables()[db_table_name(db)].contains_key(key@),
            },
            r matches Err(e) ==> e matches StoreError::Storage(_),
    {
        let rtxn = match self.hs.env.read_txn() {
            Ok(t) => t,
            Err(e) => return Err(StoreError::Storage(e.to_string())),
        };
        match db.get(&rtxn, key) {
            Ok(Some(v)) => Ok(Some(v.to_vec())),
            Ok(None) => Ok(None),
            Err(e) => Err(StoreError::Storage(e.to_string())),
        }
    }

    /// Relies on heed::Env::write_txn, heed::Database::put and
    /// heed::RwTxn::commit: the entry is stored exactly when the transaction
    /// commits; a failed transaction leaves every table as it was.
    #[verifier::external_body]
    fn raw_put(&mut self, db: RawTable, key: &str, val: &[u8]) -> (r: Result<(), StoreError>)
        requires
            db_env_ident(db) == env_ident(old(self).hs.env),
        ensures
            final(self).hs == old(self).hs,
            r matches Ok(()) ==> final(self).tables() == old(self).tables().insert(
                db_table_name(db),
                old(self).tables()[db_table_name(db)].insert(key@, val@),
            ),
            r matches Err(e) ==> final(self).tables() == old(self).tables() && e
                matches StoreError::Storage(_),
    {
        let mut w = match self.hs.env.write_txn() {
            Ok(w) => w,
            Err(e) => return Err(StoreError::Storage(e.to_string())),
        };
        if let Err(e) = db.put(&mut w, key, val) {
            return Err(StoreError::Storage(e.to_string()));
        }
        w.commit().map_err(|e| StoreError::Storage(e.to_string()))
    }

    /// Relies on the same heed calls as `raw_put`, with both entries in one
    /// write transaction: either both are on disk afterwards or neither is.
    #[verifier::external_body]
    fn raw_put_pair(
        &mut self,
        db1: RawTable,
        key1: &str,
        val1: &[u8],
        db2: RawTable,
        key2: &str,
        val2: &[u8],
    ) -> (r: Result<(), StoreError>)
        requires
            db_env_ident(db1) == env_ident(old(self).hs.env),
            db_env_ident(db2) == env_ident(old(self).hs.env),
        ensures
            final(self).hs == old(self).hs,
            r matches Ok(()) ==> ({
                let mid = old(self).tables().insert(
                    db_table_name(db1),
                    old(self).tables()[db_table_name(db1)].insert(key1@, val1@),
                );
                final(self).tables() == mid.insert(
                    db_table_name(db2),
                    mid[db_table_name(db2)].insert(key2@, val2@),
                )
            }),
            r matches Err(e) ==> final(self).tables() == old(self).tables() && e
                matches StoreError::Storage(_),
    {
        let mut w = match self.hs.env.write_txn() {
            Ok(w) => w,
            Err(e) => return Err(StoreError::Storage(e.to_string())),
        };
        if let Err(e) = db1.put(&mut w, key1, val1) {
            return Err(StoreError::Storage(e.to_string()));
        }
        if let Err(e) = db2.put(&mut w, key2, val2) {
            return Err(StoreError::Storage(e.to_string()));
        }
        w.commit().map_err(|e| StoreError::Storage(e.to_string()))
    }

    /// Relies on heed::Database::delete in one committed write transaction:
    /// the result says whether the key was present, and afterwards it is not.
    #[verifier::external_body]
    fn raw_delete(&mut self, db: RawTable, key: &str) -> (r: Result<bool, StoreError>)
        requires
            db_env_ident(db) == env_ident(old(self).hs.env),
        ensures
            final(self).hs == old(self).hs,
            r matches Ok(existed) ==> existed == old(self).tables()[db_table_name(db)]
                .contains_key(key@) && final(self).tables() == old(self).tables().insert(
                db_table_name(db),
                old(self).tables()[db_table_name(db)].remove(key@),
            ),
            r matches Err(e) ==> final(self).tables() == old(self).tables() && e
                matches StoreError::Storage(_),
    {
        let mut w = match self.hs.env.write_txn() {
            Ok(w) => w,
            Err(e) => return Err(StoreError::Storage(e.to_string())),
        };
        let existed = match db.delete(&mut w, key) {
            Ok(b) => b,
            Err(e) => return Err(StoreError::Storage(e.to_string())),
        };
        match w.commit() {
            Ok(()) => Ok(existed),
            Err(e) => Err(StoreError::Storage(e.to_string())),
        }
    }

    /// Relies on heed::Database::iter in one read transaction: every entry
    /// of the table, in increasing key order.
    #[verifier::external_body]
    fn raw_list(&self, db: RawTable) -> (r: Result<Vec<(String, Vec<u8>)>, StoreError>)
        requires
            db_env_ident(db) == env_ident(self.hs.env),
        ensures
            r matches Ok(items) ==> entries_match(
                pairs_view(items@),
                self.tables()[db_table_name(db)],
            ),
            r matches Err(e) ==> e matches StoreError::Storage(_),
    {
        let rtxn = match self.hs.env.read_txn() {
            Ok(t) => t,
            Err(e) => return Err(StoreError::Storage(e.to_string())),
        };
        let iter = match db.iter(&rtxn) {
            Ok(it) => it,
            Err(e) => return Err(StoreError::Storage(e.to_string())),
        };
        iter.map(|entry| {
            entry.map(|(k, v)| (k.to_string(), v.to_vec())).map_err(
                |e| StoreError::Storage(e.to_string()),
            )
        }).collect()
    }

    /// Relies on heed::Database::clear on each of the ten tables in one
    /// committed write transaction: afterwards every table is empty.
    #[verifier::external_body]
    fn raw_clear_all(&mut self) -> (r: Result<(), StoreError>)
        ensures
            final(self).hs == old(self).hs,
            r matches Ok(()) ==> final(self).tables() == empty_tables(),
            r matches Err(e) ==> final(self).tables() == old(self).tables() && e
                matches StoreError::Storage(_),
    {
        let mut w = match self.hs.env.write_txn() {
            Ok(w) => w,
            Err(e) => return Err(StoreError::Storage(e.to_string())),
        };
        let dbs = [
            self.hs.products, self.hs.components, self.hs.movements, self.hs.suppliers_orders,
            self.hs.orders, self.hs.procurements, self.hs.assembly_timeline,
            self.hs.production_rate, self.hs.recorder_point, self.hs.watches,
        ];
        for db in dbs {
            if let Err(e) = db.clear(&mut w) {
                return Err(StoreError::Storage(e.to_string()));
            }
        }
        w.commit().map_err(|e| StoreError::Storage(e.to_string()))
    }
}

/// A listing agrees with a table: every listed entry is stored, every stored
/// key is listed, and the keys come in strictly increasing order.
pub open spec fn entries_match(
    items: Seq<(Seq<char>, Seq<u8>)>,
    t: Map<Seq<char>, Seq<u8>>,
) -> bool {
    &&& forall|k: int|
        0 <= k < items.len() ==> t.contains_key((#[trigger] items[k]).0) && t[items[k].0]
            == items[k].1
    &&& forall|key: Seq<char>|
        t.contains_key(key) ==> exists|k: int| 0 <= k < items.len() && (#[trigger] items[k]).0
            == key
    &&& forall|k1: int, k2: int|
        0 <= k1 < k2 < items.len() ==> lex_lt((#[trigger] items[k1]).0, (#[trigger] items[k2]).0)
}

/// Strict lexicographic order on keys, by code point, shorter prefixes
/// first: the order LMDB stores UTF-8 keys in.
pub open spec fn lex_lt(a: Seq<char>, b: Seq<char>) -> bool
    decreases a.len(),
{
    if b.len() == 0 {
        false
    } else if a.len() == 0 {
        true
    } else if a[0] != b[0] {
        (a[0] as u32) < (b[0] as u32)
    } else {
        lex_lt(a.drop_first(), b.drop_first())
    }
}

/// The key/value views of a listing.
pub open spec fn pairs_view(items: Seq<(String, Vec<u8>)>) -> Seq<(Seq<char>, Seq<u8>)> {
    items.map_values(|p: (String, Vec<u8>)| (p.0@, p.1@))
}

/// Ten empty tables.
pub open spec fn empty_tables() -> TablesV {
    Map::new(|n: Seq<char>| is_table_name(n), |n: Seq<char>| Map::empty())
}

/// Whether a name names one of the ten tables.
pub open spec fn is_table_name(n: Seq<char>) -> bool {
    ||| n == products_table()
    ||| n == components_table()
    ||| n == movements_table()
    ||| n == suppliers_orders_table()
    ||| n == orders_table()
    ||| n == procurements_table()
    ||| n == assembly_timeline_table()
    ||| n == production_rate_table()
    ||| n == recorder_point_table()
    ||| n == watches_table()
}

impl InventoryDB {
    /// Opens or creates the store in an existing directory and attaches the
    /// ten tables.  Data already in the environment is kept.
    pub fn new(path: &str) -> (r: Result<InventoryDB, StoreError>)
        ensures
            r matches Ok(db) ==> db.wf(),
    {
        let env = open_env(path)?;
        proof {
            reveal_strlit("products");
            reveal_strlit("components");
            reveal_strlit("movements");
            reveal_strlit("suppliers_orders");
            reveal_strlit("orders");
            reveal_strlit("procurements");
            reveal_strlit("assembly_timeline");
            reveal_strlit("production_rate");
            reveal_strlit("recorder_point");
            reveal_strlit("watches");
        }
        let products = create_table(&env, "products")?;
        let components = create_table(&env, "components")?;
        let movements = create_table(&env, "movements")?;
        let suppliers_orders = create_table(&env, "suppliers_orders")?;
        let orders = create_table(&env, "orders")?;
        let procurements = create_table(&env, "procurements")?;
        let assembly_timeline = create_table(&env, "assembly_timeline")?;
        let production_rate = create_table(&env, "production_rate")?;
        let recorder_point = create_table(&env, "recorder_point")?;
        let watches = create_table(&env, "watches")?;
        let mut db = InventoryDB {
            hs: DbHandles {
                env,
                products,
                components,
                movements,
                suppliers_orders,
                orders,
                procurements,
                assembly_timeline,
                production_rate,
                recorder_point,
                watches,
            },
            state: Ghost(empty_tables()),
        };
        db.attach_to_disk()?;
        Ok(db)
    }

    /// Relies on heed::Env::prepare_for_closing and
    /// heed::EnvClosingEvent::wait: consuming the store releases its
    /// environment and returns once it is fully closed, so the path can be
    /// opened again in this process.
    #[verifier::external_body]
    pub fn close(self) {
        let event = self.hs.env.prepare_for_closing();
        event.wait();
    }

    /// Empties all ten tables in one atomic step.
    pub fn clear_all(&mut self) -> (r: Result<(), StoreError>)
        requires
            old(self).wf(),
        ensures
            final(self).wf(),
            r matches Ok(()) ==> final(self).tables() == empty_tables(),
            r matches Err(e) ==> final(self).tables() == old(self).tables() && e
                matches StoreError::Storage(_),
    {
        self.raw_clear_all()
    }
}

impl InventoryDB {
    /// Stores a product under its id, creating or overwriting it.
    pub fn create_product(&mut self, product: &Products) -> (r: Result<(), StoreError>)
        requires
            old(self).wf(),
        ensures
            final(self).wf(),
            r matches Ok(()) ==> final(self).tables() == old(self).tables().insert(
                products_table(),
                old(self).tables()[products_table()].insert(product.product_id@, spec_enc_products(product@)),
            ) && products_bounded(product@),
            r matches Err(e) ==> final(self).tables() == old(self).tables() && e
                matches StoreError::Storage(_),
    {
        let db = self.hs.products;
        let bytes = enc_products(product);
        self.raw_put(db, product.product_id.as_str(), bytes.as_slice())
    }

    /// Overwrites a product; creating and updating are one operation.
    pub fn update_product(&mut self, product: &Products) -> (r: Result<(), StoreError>)
        requires
            old(self).wf(),
        ensures
            final(self).wf(),
            r matches Ok(()) ==> final(self).tables() == old(self).tables().insert(
                products_table(),
                old(self).tables()[products_table()].insert(product.product_id@, spec_enc_products(product@)),
            ) && products_bounded(product@),
            r matches Err(e) ==> final(self).tables() == old(self).tables() && e
                matches StoreError::Storage(_),
    {
        self.create_product(product)
    }

    /// Looks a product up by id; absence is not an error.
    pub fn get_product(&self, id: &str) -> (r: Result<Option<Products>, StoreError>)
        requires
            self.wf(),
        ensures
            r matches Ok(o) ==> match o {
                Some(x) => self.tables()[products_table()].contains_key(id@) && spec_dec_products(
                    self.tables()[products_table()][id@],
                ) == Some(x@),
                None => !self.tables()[products_table()].contains_key(id@),
            },
            r matches Err(e) ==> match e {
                StoreError::Corrupted => self.tables()[products_table()].contains_key(id@)
                    && spec_dec_products(self.tables()[products_table()][id@]) is None,
                StoreError::Storage(_) => true,
                _ => false,
            },
    {
        let db = self.hs.products;
        match self.raw_get(db, id)? {
            Some(bytes) => match dec_products(&bytes) {
                Some(x) => Ok(Some(x)),
                None => Err(StoreError::Corrupted),
            },
            None => Ok(None),
        }
    }

    /// Deletes a product by id; the result says whether one existed.
    pub fn delete_product(&mut self, id: &str) -> (r: Result<bool, StoreError>)
        requires
            old(self).wf(),
        ensures
            final(self).wf(),
            r matches Ok(existed) ==> existed == old(self).tables()[products_table()].contains_key(id@)
                && final(self).tables() == old(self).tables().insert(
                products_table(),
                old(self).tables()[products_table()].remove(id@),
            ),
            r matches Err(e) ==> final(self).tables() == old(self).tables() && e
                matches StoreError::Storage(_),
    {
        let db = self.hs.products;
        self.raw_delete(db, id)
    }

    /// Every product, in increasing id order.
    pub fn get_all_products(&self) -> (r: Result<Vec<Products>, StoreError>)
        requires
            self.wf(),
        ensures
            r matches Ok(list) ==> exists|entries: Seq<(Seq<char>, Seq<u8>)>|
                #[trigger] entries_match(entries, self.tables()[products_table()]) && list@.len()
                    == entries.len() && (forall|k: int|
                    0 <= k < entries.len() ==> spec_dec_products((#[trigger] entries[k]).1) == Some(
                        list@[k]@,
                    )),
            r matches Err(e) ==> match e {
                StoreError::Corrupted => exists|key: Seq<char>|
                    #[trigger] self.tables()[products_table()].contains_key(key) && spec_dec_products(
                        self.tables()[products_table()][key],
                    ) is None,
                StoreError::Storage(_) => true,
                _ => false,
            },
    {
        let db = self.hs.products;
        let items = self.raw_list(db)?;
        let mut out: Vec<Products> = Vec::new();
        let mut k: usize = 0;
        while k < items.len()
            invariant
                k <= items@.len(),
                out@.len() == k,
                pairs_view(items@).len() == items@.len(),
                entries_match(pairs_view(items@), self.tables()[products_table()]),
                forall|q: int|
                    0 <= q < k ==> spec_dec_products(pairs_view(items@)[q].1) == Some(
                        #[trigger] out@[q]@,
                    ),
            decreases items@.len() - k,
        {
            let pair = &items[k];
            proof {
                assert(pairs_view(items@)[k as int] == (items@[k as int].0@, items@[k as int].1@));
            }
            match dec_products(&pair.1) {
                Some(x) => {
                    out.push(x);
                },
                None => {
                    proof {
                        assert(self.tables()[products_table()].contains_key(
                            pairs_view(items@)[k as int].0,
                        ));
                        assert(spec_dec_products(
                            self.tables()[products_table()][pairs_view(items@)[k as int].0],
                        ) is None);
                    }
                    return Err(StoreError::Corrupted);
                },
            }
            k = k + 1;
        }
        proof {
            assert(entries_match(pairs_view(items@), self.tables()[products_table()]));
        }
        Ok(out)
    }

    /// Stores a component under its id, creating or overwriting it.
    pub fn create_component(&mut self, component: &Components) -> (r: Result<(), StoreError>)
        requires
            old(self).wf(),
        ensures
            final(self).wf(),
            r matches Ok(()) ==> final(self).tables() == old(self).tables().insert(
                components_table(),
                old(self).tables()[components_table()].insert(component.component_id@, spec_enc_components(component@)),
            ) && components_bounded(component@),
            r matches Err(e) ==> final(self).tables() == old(self).tables() && e
                matches StoreError::Storage(_),
    {
        let db = self.hs.components;
        let bytes = enc_components(component);
        self.raw_put(db, component.component_id.as_str(), bytes.as_slice())
    }

    /// Overwrites a component; creating and updating are one operation.
    pub fn update_component(&mut self, component: &Components) -> (r: Result<(), StoreError>)
        requires
            old(self).wf(),
        ensures
            final(self).wf(),
            r matches Ok(()) ==> final(self).tables() == old(self).tables().insert(
                components_table(),
                old(self).tables()[components_table()].insert(component.component_id@, spec_enc_components(component@)),
            ) && components_bounded(component@),
            r matches Err(e) ==> final(self).tables() == old(self).tables() && e
                matches StoreError::Storage(_),
    {
        self.create_component(component)
    }

    /// Looks a component up by id; absence is not an error.
    pub fn get_component(&self, id: &str) -> (r: Result<Option<Components>, StoreError>)
        requires
            self.wf(),
        ensures
            r matches Ok(o) ==> match o {
                Some(x) => self.tables()[components_table()].contains_key(id@) && spec_dec_components(
                    self.tables()[components_table()][id@],
                ) == Some(x@),
                None => !self.tables()[components_table()].contains_key(id@),
            },
            r matches Err(e) ==> match e {
                StoreError::Corrupted => self.tables()[components_table()].contains_key(id@)
                    && spec_dec_components(self.tables()[components_table()][id@]) is None,
                StoreError::Storage(_) => true,
                _ => false,
            },
    {
        let db = self.hs.components;
        match self.raw_get(db, id)? {
            Some(bytes) => match dec_components(&bytes) {
                Some(x) => Ok(Some(x)),
                None => Err(StoreError::Corrupted),
            },
            None => Ok(None),
        }
    }

    /// Deletes a component by id; the result says whether one existed.
    pub fn delete_component(&mut self, id: &str) -> (r: Result<bool, StoreError>)
        requires
            old(self).wf(),
        ensures
            final(self).wf(),
            r matches Ok(existed) ==> existed == old(self).tables()[components_table()].contains_key(id@)
                && final(self).tables() == old(self).tables().insert(
                components_table(),
                old(self).tables()[components_table()].remove(id@),
            ),
            r matches Err(e) ==> final(self).tables() == old(self).tables() && e
                matches StoreError::Storage(_),
    {
        let db = self.hs.components;
        self.raw_delete(db, id)
    }

    /// Every component, in increasing id order.
    pub fn get_all_components(&self) -> (r: Result<Vec<Components>, StoreError>)
        requires
            self.wf(),
        ensures
            r matches Ok(list) ==> exists|entries: Seq<(Seq<char>, Seq<u8>)>|
                #[trigger] entries_match(entries, self.tables()[components_table()]) && list@.len()
                    == entries.len() && (forall|k: int|
                    0 <= k < entries.len() ==> spec_dec_components((#[trigger] entries[k]).1) == Some(
                        list@[k]@,
                    )),
            r matches Err(e) ==> match e {
                StoreError::Corrupted => exists|key: Seq<char>|
                    #[trigger] self.tables()[components_table()].contains_key(key) && spec_dec_components(
                        self.tables()[components_table()][key],
                    ) is None,
                StoreError::Storage(_) => true,
                _ => false,
            },
    {
        let db = self.hs.components;
        let items = self.raw_list(db)?;
        let mut out: Vec<Components> = Vec::new();
        let mut k: usize = 0;
        while k < items.len()
            invariant
                k <= items@.len(),
                out@.len() == k,
                pairs_view(items@).len() == items@.len(),
                entries_match(pairs_view(items@), self.tables()[components_table()]),
                forall|q: int|
                    0 <= q < k ==> spec_dec_components(pairs_view(items@)[q].1) == Some(
                        #[trigger] out@[q]@,
                    ),
            decreases items@.len() - k,
        {
            let pair = &items[k];
            proof {
                assert(pairs_view(items@)[k as int] == (items@[k as int].0@, items@[k as int].1@));
            }
            match dec_components(&pair.1) {
                Some(x) => {
                    out.push(x);
                },
                None => {
                    proof {
                        assert(self.tables()[components_table()].contains_key(
                            pairs_view(items@)[k as int].0,
                        ));
                        assert(spec_dec_components(
                            self.tables()[components_table()][pairs_view(items@)[k as int].0],
                        ) is None);
                    }
                    return Err(StoreError::Corrupted);
                },
            }
            k = k + 1;
        }
        proof {
            assert(entries_match(pairs_view(items@), self.tables()[components_table()]));
        }
        Ok(out)
    }

    /// Stores a supplier order under its id, creating or overwriting it.
    pub fn create_supplier_order(&mut self, supplier_order: &SuppliersOrders) -> (r: Result<(), StoreError>)
        requires
            old(self).wf(),
        ensures
            final(self).wf(),
            r matches Ok(()) ==> final(self).tables() == old(self).tables().insert(
                suppliers_orders_table(),
                old(self).tables()[suppliers_orders_table()].insert(supplier_order.order_id@, spec_enc_suppliers_orders(supplier_order@)),
            ) && suppliers_orders_bounded(supplier_order@),
            r matches Err(e) ==> final(self).tables() == old(self).tables() && e
                matches StoreError::Storage(_),
    {
        let db = self.hs.suppliers_orders;
        let bytes = enc_suppliers_orders(supplier_order);
        self.raw_put(db, supplier_order.order_id.as_str(), bytes.as_slice())
    }

    /// Overwrites a supplier order; creating and updating are one operation.
    pub fn update_supplier_order(&mut self, supplier_order: &SuppliersOrders) -> (r: Result<(), StoreError>)
        requires
            old(self).wf(),
        ensures
            final(self).wf(),
            r matches Ok(()) ==> final(self).tables() == old(self).tables().insert(
                suppliers_orders_table(),
                old(self).tables()[suppliers_orders_table()].insert(supplier_order.order_id@, spec_enc_suppliers_orders(supplier_order@)),
            ) && suppliers_orders_bounded(supplier_order@),
            r matches Err(e) ==> final(self).tables() == old(self).tables() && e
                matches StoreError::Storage(_),
    {
        self.create_supplier_order(supplier_order)
    }

    /// Looks a supplier order up by id; absence is not an error.
    pub fn get_supplier_order(&self, id: &str) -> (r: Result<Option<SuppliersOrders>, StoreError>)
        requires
            self.wf(),
        ensures
            r matches Ok(o) ==> match o {
                Some(x) => self.tables()[suppliers_orders_table()].contains_key(id@) && spec_dec_suppliers_orders(
                    self.tables()[suppliers_orders_table()][id@],
                ) == Some(x@),
                None => !self.tables()[suppliers_orders_table()].contains_key(id@),
            },
            r matches Err(e) ==> match e {
                StoreError::Corrupted => self.tables()[suppliers_orders_table()].contains_key(id@)
                    && spec_dec_suppliers_orders(self.tables()[suppliers_orders_table()][id@]) is None,
                StoreError::Storage(_) => true,
                _ => false,
            },
    {
        let db = self.hs.suppliers_orders;
        match self.raw_get(db, id)? {
            Some(bytes) => match dec_suppliers_orders(&bytes) {
                Some(x) => Ok(Some(x)),
                None => Err(StoreError::Corrupted),
            },
            None => Ok(None),
        }
    }

    /// Deletes a supplier order by id; the result says whether one existed.
    pub fn delete_supplier_order(&mut self, id: &str) -> (r: Result<bool, StoreError>)
        requires
            old(self).wf(),
        ensures
            final(self).wf(),
            r matches Ok(existed) ==> existed == old(self).tables()[suppliers_orders_table()].contains_key(id@)
                && final(self).tables() == old(self).tables().insert(
                suppliers_orders_table(),
                old(self).tables()[suppliers_orders_table()].remove(id@),
            ),
            r matches Err(e) ==> final(self).tables() == old(self).tables() && e
                matches StoreError::Storage(_),
    {
        let db = self.hs.suppliers_orders;
        self.raw_delete(db, id)
    }

    /// Every supplier order, in increasing id order.
    pub fn get_all_supplier_orders(&self) -> (r: Result<Vec<SuppliersOrders>, StoreError>)
        requires
            self.wf(),
        ensures
            r matches Ok(list) ==> exists|entries: Seq<(Seq<char>, Seq<u8>)>|
                #[trigger] entries_match(entries, self.tables()[suppliers_orders_table()]) && list@.len()
                    == entries.len() && (forall|k: int|
                    0 <= k < entries.len() ==> spec_dec_suppliers_orders((#[trigger] entries[k]).1) == Some(
                        list@[k]@,
                    )),
            r matches Err(e) ==> match e {
                StoreError::Corrupted => exists|key: Seq<char>|
                    #[trigger] self.tables()[suppliers_orders_table()].contains_key(key) && spec_dec_suppliers_orders(
                        self.tables()[suppliers_orders_table()][key],
                    ) is None,
                StoreError::Storage(_) => true,
                _ => false,
            },
    {
        let db = self.hs.suppliers_orders;
        let items = self.raw_list(db)?;
        let mut out: Vec<SuppliersOrders> = Vec::new();
        let mut k: usize = 0;
        while k < items.len()
            invariant
                k <= items@.len(),
                out@.len() == k,
                pairs_view(items@).len() == items@.len(),
                entries_match(pairs_view(items@), self.tables()[suppliers_orders_table()]),
                forall|q: int|
                    0 <= q < k ==> spec_dec_suppliers_orders(pairs_view(items@)[q].1) == Some(
                        #[trigger] out@[q]@,
                    ),
            decreases items@.len() - k,
        {
            let pair = &items[k];
            proof {
                assert(pairs_view(items@)[k as int] == (items@[k as int].0@, items@[k as int].1@));
            }
            match dec_suppliers_orders(&pair.1) {
                Some(x) => {
                    out.push(x);
                },
                None => {
                    proof {
                        assert(self.tables()[suppliers_orders_table()].contains_key(
                            pairs_view(items@)[k as int].0,
                        ));
                        assert(spec_dec_suppliers_orders(
                            self.tables()[suppliers_orders_table()][pairs_view(items@)[k as int].0],
                        ) is None);
                    }
                    return Err(StoreError::Corrupted);
                },
            }
            k = k + 1;
        }
        proof {
            assert(entries_match(pairs_view(items@), self.tables()[suppliers_orders_table()]));
        }
        Ok(out)
    }

    /// Stores a order under its id, creating or overwriting it.
    pub fn create_order(&mut self, order: &Orders) -> (r: Result<(), StoreError>)
        requires
            old(self).wf(),
        ensures
            final(self).wf(),
            r matches Ok(()) ==> final(self).tables() == old(self).tables().insert(
                orders_table(),
                old(self).tables()[orders_table()].insert(order.order_id@, spec_enc_orders(order@)),
            ) && orders_bounded(order@),
            r matches Err(e) ==> final(self).tables() == old(self).tables() && e
                matches StoreError::Storage(_),
    {
        let db = self.hs.orders;
        let bytes = enc_orders(order);
        self.raw_put(db, order.order_id.as_str(), bytes.as_slice())
    }

    /// Overwrites a order; creating and updating are one operation.
    pub fn update_order(&mut self, order: &Orders) -> (r: Result<(), StoreError>)
        requires
            old(self).wf(),
        ensures
            final(self).wf(),
            r matches Ok(()) ==> final(self).tables() == old(self).tables().insert(
                orders_table(),
                old(self).tables()[orders_table()].insert(order.order_id@, spec_enc_orders(order@)),
            ) && orders_bounded(order@),
            r matches Err(e) ==> final(self).tables() == old(self).tables() && e
                matches StoreError::Storage(_),
    {
        self.create_order(order)
    }

    /// Looks a order up by id; absence is not an error.
    pub fn get_order(&self, id: &str) -> (r: Result<Option<Orders>, StoreError>)
        requires
            self.wf(),
        ensures
            r matches Ok(o) ==> match o {
                Some(x) => self.tables()[orders_table()].contains_key(id@) && spec_dec_orders(
                    self.tables()[orders_table()][id@],
                ) == Some(x@),
                None => !self.tables()[orders_table()].contains_key(id@),
            },
            r matches Err(e) ==> match e {
                StoreError::Corrupted => self.tables()[orders_table()].contains_key(id@)
                    && spec_dec_orders(self.tables()[orders_table()][id@]) is None,
                StoreError::Storage(_) => true,
                _ => false,
            },
    {
        let db = self.hs.orders;
        match self.raw_get(db, id)? {
            Some(bytes) => match dec_orders(&bytes) {
                Some(x) => Ok(Some(x)),
                None => Err(StoreError::Corrupted),
            },
            None => Ok(None),
        }
    }

    /// Deletes a order by id; the result says whether one existed.
    pub fn delete_order(&mut self, id: &str) -> (r: Result<bool, StoreError>)
        requires
            old(self).wf(),
        ensures
            final(self).wf(),
            r matches Ok(existed) ==> existed == old(self).tables()[orders_table()].contains_key(id@)
                && final(self).tables() == old(self).tables().insert(
                orders_table(),
                old(self).tables()[orders_table()].remove(id@),
            ),
            r matches Err(e) ==> final(self).tables() == old(self).tables() && e
                matches StoreError::Storage(_),
    {
        let db = self.hs.orders;
        self.raw_delete(db, id)
    }

    /// Every order, in increasing id order.
    pub fn get_all_orders(&self) -> (r: Result<Vec<Orders>, StoreError>)
        requires
            self.wf(),
        ensures
            r matches Ok(list) ==> exists|entries: Seq<(Seq<char>, Seq<u8>)>|
                #[trigger] entries_match(entries, self.tables()[orders_table()]) && list@.len()
                    == entries.len() && (forall|k: int|
                    0 <= k < entries.len() ==> spec_dec_orders((#[trigger] entries[k]).1) == Some(
                        list@[k]@,
                    )),
            r matches Err(e) ==> match e {
                StoreError::Corrupted => exists|key: Seq<char>|
                    #[trigger] self.tables()[orders_table()].contains_key(key) && spec_dec_orders(
                        self.tables()[orders_table()][key],
                    ) is None,
                StoreError::Storage(_) => true,
                _ => false,
            },
    {
        let db = self.hs.orders;
        let items = self.raw_list(db)?;
        let mut out: Vec<Orders> = Vec::new();
        let mut k: usize = 0;
        while k < items.len()
            invariant
                k <= items@.len(),
                out@.len() == k,
                pairs_view(items@).len() == items@.len(),
                entries_match(pairs_view(items@), self.tables()[orders_table()]),
                forall|q: int|
                    0 <= q < k ==> spec_dec_orders(pairs_view(items@)[q].1) == Some(
                        #[trigger] out@[q]@,
                    ),
            decreases items@.len() - k,
        {
            let pair = &items[k];
            proof {
                assert(pairs_view(items@)[k as int] == (items@[k as int].0@, items@[k as int].1@));
            }
            match dec_orders(&pair.1) {
                Some(x) => {
                    out.push(x);
                },
                None => {
                    proof {
                        assert(self.tables()[orders_table()].contains_key(
                            pairs_view(items@)[k as int].0,
                        ));
                        assert(spec_dec_orders(
                            self.tables()[orders_table()][pairs_view(items@)[k as int].0],
                        ) is None);
                    }
                    return Err(StoreError::Corrupted);
                },
            }
            k = k + 1;
        }
        proof {
            assert(entries_match(pairs_view(items@), self.tables()[orders_table()]));
        }
        Ok(out)
    }

    /// Stores a procurement group under its id, creating or overwriting it.
    pub fn create_procurement(&mut self, procurement: &Procurements) -> (r: Result<(), StoreError>)
        requires
            old(self).wf(),
        ensures
            final(self).wf(),
            r matches Ok(()) ==> final(self).tables() == old(self).tables().insert(
                procurements_table(),
                old(self).tables()[procurements_table()].insert(procurement.procurement_id@, spec_enc_procurements(procurement@)),
            ) && procurements_bounded(procurement@),
            r matches Err(e) ==> final(self).tables() == old(self).tables() && e
                matches StoreError::Storage(_),
    {
        let db = self.hs.procurements;
        let bytes = enc_procurements(procurement);
        self.raw_put(db, procurement.procurement_id.as_str(), bytes.as_slice())
    }

    /// Overwrites a procurement group; creating and updating are one operation.
    pub fn update_procurement(&mut self, procurement: &Procurements) -> (r: Result<(), StoreError>)
        requires
            old(self).wf(),
        ensures
            final(self).wf(),
            r matches Ok(()) ==> final(self).tables() == old(self).tables().insert(
                procurements_table(),
                old(self).tables()[procurements_table()].insert(procurement.procurement_id@, spec_enc_procurements(procurement@)),
            ) && procurements_bounded(procurement@),
            r matches Err(e) ==> final(self).tables() == old(self).tables() && e
                matches StoreError::Storage(_),
    {
        self.create_procurement(procurement)
    }

    /// Looks a procurement group up by id; absence is not an error.
    pub fn get_procurement(&self, id: &str) -> (r: Result<Option<Procurements>, StoreError>)
        requires
            self.wf(),
        ensures
            r matches Ok(o) ==> match o {
                Some(x) => self.tables()[procurements_table()].contains_key(id@) && spec_dec_procurements(
                    self.tables()[procurements_table()][id@],
                ) == Some(x@),
                None => !self.tables()[procurements_table()].contains_key(id@),
            },
            r matches Err(e) ==> match e {
                StoreError::Corrupted => self.tables()[procurements_table()].contains_key(id@)
                    && spec_dec_procurements(self.tables()[procurements_table()][id@]) is None,
                StoreError::Storage(_) => true,
                _ => false,
            },
    {
        let db = self.hs.procurements;
        match self.raw_get(db, id)? {
            Some(bytes) => match dec_procurements(&bytes) {
                Some(x) => Ok(Some(x)),
                None => Err(StoreError::Corrupted),
            },
            None => Ok(None),
        }
    }

    /// Deletes a procurement group by id; the result says whether one existed.
    pub fn delete_procurement(&mut self, id: &str) -> (r: Result<bool, StoreError>)
        requires
            old(self).wf(),
        ensures
            final(self).wf(),
            r matches Ok(existed) ==> existed == old(self).tables()[procurements_table()].contains_key(id@)
                && final(self).tables() == old(self).tables().insert(
                procurements_table(),
                old(self).tables()[procurements_table()].remove(id@),
            ),
            r matches Err(e) ==> final(self).tables() == old(self).tables() && e
                matches StoreError::Storage(_),
    {
        let db = self.hs.procurements;
        self.raw_delete(db, id)
    }

    /// Every procurement group, in increasing id order.
    pub fn get_all_procurements(&self) -> (r: Result<Vec<Procurements>, StoreError>)
        requires
            self.wf(),
        ensures
            r matches Ok(list) ==> exists|entries: Seq<(Seq<char>, Seq<u8>)>|
                #[trigger] entries_match(entries, self.tables()[procurements_table()]) && list@.len()
                    == entries.len() && (forall|k: int|
                    0 <= k < entries.len() ==> spec_dec_procurements((#[trigger] entries[k]).1) == Some(
                        list@[k]@,
                    )),
            r matches Err(e) ==> match e {
                StoreError::Corrupted => exists|key: Seq<char>|
                    #[trigger] self.tables()[procurements_table()].contains_key(key) && spec_dec_procurements(
                        self.tables()[procurements_table()][key],
                    ) is None,
                StoreError::Storage(_) => true,
                _ => false,
            },
    {
        let db = self.hs.procurements;
        let items = self.raw_list(db)?;
        let mut out: Vec<Procurements> = Vec::new();
        let mut k: usize = 0;
        while k < items.len()
            invariant
                k <= items@.len(),
                out@.len() == k,
                pairs_view(items@).len() == items@.len(),
                entries_match(pairs_view(items@), self.tables()[procurements_table()]),
                forall|q: int|
                    0 <= q < k ==> spec_dec_procurements(pairs_view(items@)[q].1) == Some(
                        #[trigger] out@[q]@,
                    ),
            decreases items@.len() - k,
        {
            let pair = &items[k];
            proof {
                assert(pairs_view(items@)[k as int] == (items@[k as int].0@, items@[k as int].1@));
            }
            match dec_procurements(&pair.1) {
                Some(x) => {
                    out.push(x);
                },
                None => {
                    proof {
                        assert(self.tables()[procurements_table()].contains_key(
                            pairs_view(items@)[k as int].0,
                        ));
                        assert(spec_dec_procurements(
                            self.tables()[procurements_table()][pairs_view(items@)[k as int].0],
                        ) is None);
                    }
                    return Err(StoreError::Corrupted);
                },
            }
            k = k + 1;
        }
        proof {
            assert(entries_match(pairs_view(items@), self.tables()[procurements_table()]));
        }
        Ok(out)
    }

    /// Stores a assembly timeline under its id, creating or overwriting it.
    pub fn create_assembly_timeline(&mut self, assembly_timeline: &AssemblyTimeLine) -> (r: Result<(), StoreError>)
        requires
            old(self).wf(),
        ensures
            final(self).wf(),
            r matches Ok(()) ==> final(self).tables() == old(self).tables().insert(
                assembly_timeline_table(),
                old(self).tables()[assembly_timeline_table()].insert(assembly_timeline.assembly_id@, spec_enc_assembly_time_line(assembly_timeline@)),
            ) && assembly_time_line_bounded(assembly_timeline@),
            r matches Err(e) ==> final(self).tables() == old(self).tables() && e
                matches StoreError::Storage(_),
    {
        let db = self.hs.assembly_timeline;
        let bytes = enc_assembly_time_line(assembly_timeline);
        self.raw_put(db, assembly_timeline.assembly_id.as_str(), bytes.as_slice())
    }

    /// Overwrites a assembly timeline; creating and updating are one operation.
    pub fn update_assembly_timeline(&mut self, assembly_timeline: &AssemblyTimeLine) -> (r: Result<(), StoreError>)
        requires
            old(self).wf(),
        ensures
            final(self).wf(),
            r matches Ok(()) ==> final(self).tables() == old(self).tables().insert(
                assembly_timeline_table(),
                old(self).tables()[assembly_timeline_table()].insert(assembly_timeline.assembly_id@, spec_enc_assembly_time_line(assembly_timeline@)),
            ) && assembly_time_line_bounded(assembly_timeline@),
            r matches Err(e) ==> final(self).tables() == old(self).tables() && e
                matches StoreError::Storage(_),
    {
        self.create_assembly_timeline(assembly_timeline)
    }

    /// Looks a assembly timeline up by id; absence is not an error.
    pub fn get_assembly_timeline(&self, id: &str) -> (r: Result<Option<AssemblyTimeLine>, StoreError>)
        requires
            self.wf(),
        ensures
            r matches Ok(o) ==> match o {
                Some(x) => self.tables()[assembly_timeline_table()].contains_key(id@) && spec_dec_assembly_time_line(
                    self.tables()[assembly_timeline_table()][id@],
                ) == Some(x@),
                None => !self.tables()[assembly_timeline_table()].contains_key(id@),
            },
            r matches Err(e) ==> match e {
                StoreError::Corrupted => self.tables()[assembly_timeline_table()].contains_key(id@)
                    && spec_dec_assembly_time_line(self.tables()[assembly_timeline_table()][id@]) is None,
                StoreError::Storage(_) => true,
                _ => false,
            },
    {
        let db = self.hs.assembly_timeline;
        match self.raw_get(db, id)? {
            Some(bytes) => match dec_assembly_time_line(&bytes) {
                Some(x) => Ok(Some(x)),
                None => Err(StoreError::Corrupted),
            },
            None => Ok(None),
        }
    }

    /// Deletes a assembly timeline by id; the result says whether one existed.
    pub fn delete_assembly_timeline(&mut self, id: &str) -> (r: Result<bool, StoreError>)
        requires
            old(self).wf(),
        ensures
            final(self).wf(),
            r matches Ok(existed) ==> existed == old(self).tables()[assembly_timeline_table()].contains_key(id@)
                && final(self).tables() == old(self).tables().insert(
                assembly_timeline_table(),
                old(self).tables()[assembly_timeline_table()].remove(id@),
            ),
            r matches Err(e) ==> final(self).tables() == old(self).tables() && e
                matches StoreError::Storage(_),
    {
        let db = self.hs.assembly_timeline;
        self.raw_delete(db, id)
    }

    /// Every assembly timeline, in increasing id order.
    pub fn get_all_assembly_timelines(&self) -> (r: Result<Vec<AssemblyTimeLine>, StoreError>)
        requires
            self.wf(),
        ensures
            r matches Ok(list) ==> exists|entries: Seq<(Seq<char>, Seq<u8>)>|
                #[trigger] entries_match(entries, self.tables()[assembly_timeline_table()]) && list@.len()
                    == entries.len() && (forall|k: int|
                    0 <= k < entries.len() ==> spec_dec_assembly_time_line((#[trigger] entries[k]).1) == Some(
                        list@[k]@,
                    )),
            r matches Err(e) ==> match e {
                StoreError::Corrupted => exists|key: Seq<char>|
                    #[trigger] self.tables()[assembly_timeline_table()].contains_key(key) && spec_dec_assembly_time_line(
                        self.tables()[assembly_timeline_table()][key],
                    ) is None,
                StoreError::Storage(_) => true,
                _ => false,
            },
    {
        let db = self.hs.assembly_timeline;
        let items = self.raw_list(db)?;
        let mut out: Vec<AssemblyTimeLine> = Vec::new();
        let mut k: usize = 0;
        while k < items.len()
            invariant
                k <= items@.len(),
                out@.len() == k,
                pairs_view(items@).len() == items@.len(),
                entries_match(pairs_view(items@), self.tables()[assembly_timeline_table()]),
                forall|q: int|
                    0 <= q < k ==> spec_dec_assembly_time_line(pairs_view(items@)[q].1) == Some(
                        #[trigger] out@[q]@,
                    ),
            decreases items@.len() - k,
        {
            let pair = &items[k];
            proof {
                assert(pairs_view(items@)[k as int] == (items@[k as int].0@, items@[k as int].1@));
            }
            match dec_assembly_time_line(&pair.1) {
                Some(x) => {
                    out.push(x);
                },
                None => {
                    proof {
                        assert(self.tables()[assembly_timeline_table()].contains_key(
                            pairs_view(items@)[k as int].0,
                        ));
                        assert(spec_dec_assembly_time_line(
                            self.tables()[assembly_timeline_table()][pairs_view(items@)[k as int].0],
                        ) is None);
                    }
                    return Err(StoreError::Corrupted);
                },
            }
            k = k + 1;
        }
        proof {
            assert(entries_match(pairs_view(items@), self.tables()[assembly_timeline_table()]));
        }
        Ok(out)
    }

    /// Stores a production rate under its id, creating or overwriting it.
    pub fn create_production_rate(&mut self, production_rate: &ProductionRate) -> (r: Result<(), StoreError>)
        requires
            old(self).wf(),
        ensures
            final(self).wf(),
            r matches Ok(()) ==> final(self).tables() == old(self).tables().insert(
                production_rate_table(),
                old(self).tables()[production_rate_table()].insert(production_rate.prodction_rate_id@, spec_enc_production_rate(production_rate@)),
            ) && production_rate_bounded(production_rate@),
            r matches Err(e) ==> final(self).tables() == old(self).tables() && e
                matches StoreError::Storage(_),
    {
        let db = self.hs.production_rate;
        let bytes = enc_production_rate(production_rate);
        self.raw_put(db, production_rate.prodction_rate_id.as_str(), bytes.as_slice())
    }

    /// Overwrites a production rate; creating and updating are one operation.
    pub fn update_production_rate(&mut self, production_rate: &ProductionRate) -> (r: Result<(), StoreError>)
        requires
            old(self).wf(),
        ensures
            final(self).wf(),
            r matches Ok(()) ==> final(self).tables() == old(self).tables().insert(
                production_rate_table(),
                old(self).tables()[production_rate_table()].insert(production_rate.prodction_rate_id@, spec_enc_production_rate(production_rate@)),
            ) && production_rate_bounded(production_rate@),
            r matches Err(e) ==> final(self).tables() == old(self).tables() && e
                matches StoreError::Storage(_),
    {
        self.create_production_rate(production_rate)
    }

    /// Looks a production rate up by id; absence is not an error.
    pub fn get_production_rate(&self, id: &str) -> (r: Result<Option<ProductionRate>, StoreError>)
        requires
            self.wf(),
        ensures
            r matches Ok(o) ==> match o {
                Some(x) => self.tables()[production_rate_table()].contains_key(id@) && spec_dec_production_rate(
                    self.tables()[production_rate_table()][id@],
                ) == Some(x@),
                None => !self.tables()[production_rate_table()].contains_key(id@),
            },
            r matches Err(e) ==> match e {
                StoreError::Corrupted => self.tables()[production_rate_table()].contains_key(id@)
                    && spec_dec_production_rate(self.tables()[production_rate_table()][id@]) is None,
                StoreError::Storage(_) => true,
                _ => false,
            },
    {
        let db = self.hs.production_rate;
        match self.raw_get(db, id)? {
            Some(bytes) => match dec_production_rate(&bytes) {
                Some(x) => Ok(Some(x)),
                None => Err(StoreError::Corrupted),
            },
            None => Ok(None),
        }
    }

    /// Deletes a production rate by id; the result says whether one existed.
    pub fn delete_production_rate(&mut self, id: &str) -> (r: Result<bool, StoreError>)
        requires
            old(self).wf(),
        ensures
            final(self).wf(),
            r matches Ok(existed) ==> existed == old(self).tables()[production_rate_table()].contains_key(id@)
                && final(self).tables() == old(self).tables().insert(
                production_rate_table(),
                old(self).tables()[production_rate_table()].remove(id@),
            ),
            r matches Err(e) ==> final(self).tables() == old(self).tables() && e
                matches StoreError::Storage(_),
    {
        let db = self.hs.production_rate;
        self.raw_delete(db, id)
    }

    /// Every production rate, in increasing id order.
    pub fn get_all_production_rates(&self) -> (r: Result<Vec<ProductionRate>, StoreError>)
        requires
            self.wf(),
        ensures
            r matches Ok(list) ==> exists|entries: Seq<(Seq<char>, Seq<u8>)>|
                #[trigger] entries_match(entries, self.tables()[production_rate_table()]) && list@.len()
                    == entries.len() && (forall|k: int|
                    0 <= k < entries.len() ==> spec_dec_production_rate((#[trigger] entries[k]).1) == Some(
                        list@[k]@,
                    )),
            r matches Err(e) ==> match e {
                StoreError::Corrupted => exists|key: Seq<char>|
                    #[trigger] self.tables()[production_rate_table()].contains_key(key) && spec_dec_production_rate(
                        self.tables()[production_rate_table()][key],
                    ) is None,
                StoreError::Storage(_) => true,
                _ => false,
            },
    {
        let db = self.hs.production_rate;
        let items = self.raw_list(db)?;
        let mut out: Vec<ProductionRate> = Vec::new();
        let mut k: usize = 0;
        while k < items.len()
            invariant
                k <= items@.len(),
                out@.len() == k,
                pairs_view(items@).len() == items@.len(),
                entries_match(pairs_view(items@), self.tables()[production_rate_table()]),
                forall|q: int|
                    0 <= q < k ==> spec_dec_production_rate(pairs_view(items@)[q].1) == Some(
                        #[trigger] out@[q]@,
                    ),
            decreases items@.len() - k,
        {
            let pair = &items[k];
            proof {
                assert(pairs_view(items@)[k as int] == (items@[k as int].0@, items@[k as int].1@));
            }
            match dec_production_rate(&pair.1) {
                Some(x) => {
                    out.push(x);
                },
                None => {
                    proof {
                        assert(self.tables()[production_rate_table()].contains_key(
                            pairs_view(items@)[k as int].0,
                        ));
                        assert(spec_dec_production_rate(
                            self.tables()[production_rate_table()][pairs_view(items@)[k as int].0],
                        ) is None);
                    }
                    return Err(StoreError::Corrupted);
                },
            }
            k = k + 1;
        }
        proof {
            assert(entries_match(pairs_view(items@), self.tables()[production_rate_table()]));
        }
        Ok(out)
    }

    /// Stores a reorder point under its id, creating or overwriting it.
    pub fn create_reorder_point(&mut self, reorder_point: &RecorderPoint) -> (r: Result<(), StoreError>)
        requires
            old(self).wf(),
        ensures
            final(self).wf(),
            r matches Ok(()) ==> final(self).tables() == old(self).tables().insert(
                recorder_point_table(),
                old(self).tables()[recorder_point_table()].insert(reorder_point.recorder_point_id@, spec_enc_recorder_point(reorder_point@)),
            ) && recorder_point_bounded(reorder_point@),
            r matches Err(e) ==> final(self).tables() == old(self).tables() && e
                matches StoreError::Storage(_),
    {
        let db = self.hs.recorder_point;
        let bytes = enc_recorder_point(reorder_point);
        self.raw_put(db, reorder_point.recorder_point_id.as_str(), bytes.as_slice())
    }

    /// Overwrites a reorder point; creating and updating are one operation.
    pub fn update_reorder_point(&mut self, reorder_point: &RecorderPoint) -> (r: Result<(), StoreError>)
        requires
            old(self).wf(),
        ensures
            final(self).wf(),
            r matches Ok(()) ==> final(self).tables() == old(self).tables().insert(
                recorder_point_table(),
                old(self).tables()[recorder_point_table()].insert(reorder_point.recorder_point_id@, spec_enc_recorder_point(reorder_point@)),
            ) && recorder_point_bounded(reorder_point@),
            r matches Err(e) ==> final(self).tables() == old(self).tables() && e
                matches StoreError::Storage(_),
    {
        self.create_reorder_point(reorder_point)
    }

    /// Looks a reorder point up by id; absence is not an error.
    pub fn get_reorder_point(&self, id: &str) -> (r: Result<Option<RecorderPoint>, StoreError>)
        requires
            self.wf(),
        ensures
            r matches Ok(o) ==> match o {
                Some(x) => self.tables()[recorder_point_table()].contains_key(id@) && spec_dec_recorder_point(
                    self.tables()[recorder_point_table()][id@],
                ) == Some(x@),
                None => !self.tables()[recorder_point_table()].contains_key(id@),
            },
            r matches Err(e) ==> match e {
                StoreError::Corrupted => self.tables()[recorder_point_table()].contains_key(id@)
                    && spec_dec_recorder_point(self.tables()[recorder_point_table()][id@]) is None,
                StoreError::Storage(_) => true,
                _ => false,
            },
    {
        let db = self.hs.recorder_point;
        match self.raw_get(db, id)? {
            Some(bytes) => match dec_recorder_point(&bytes) {
                Some(x) => Ok(Some(x)),
                None => Err(StoreError::Corrupted),
            },
            None => Ok(None),
        }
    }

    /// Deletes a reorder point by id; the result says whether one existed.
    pub fn delete_reorder_point(&mut self, id: &str) -> (r: Result<bool, StoreError>)
        requires
            old(self).wf(),
        ensures
            final(self).wf(),
            r matches Ok(existed) ==> existed == old(self).tables()[recorder_point_table()].contains_key(id@)
                && final(self).tables() == old(self).tables().insert(
                recorder_point_table(),
                old(self).tables()[recorder_point_table()].remove(id@),
            ),
            r matches Err(e) ==> final(self).tables() == old(self).tables() && e
                matches StoreError::Storage(_),
    {
        let db = self.hs.recorder_point;
        self.raw_delete(db, id)
    }

    /// Every reorder point, in increasing id order.
    pub fn get_all_reorder_points(&self) -> (r: Result<Vec<RecorderPoint>, StoreError>)
        requires
            self.wf(),
        ensures
            r matches Ok(list) ==> exists|entries: Seq<(Seq<char>, Seq<u8>)>|
                #[trigger] entries_match(entries, self.tables()[recorder_point_table()]) && list@.len()
                    == entries.len() && (forall|k: int|
                    0 <= k < entries.len() ==> spec_dec_recorder_point((#[trigger] entries[k]).1) == Some(
                        list@[k]@,
                    )),
            r matches Err(e) ==> match e {
                StoreError::Corrupted => exists|key: Seq<char>|
                    #[trigger] self.tables()[recorder_point_table()].contains_key(key) && spec_dec_recorder_point(
                        self.tables()[recorder_point_table()][key],
                    ) is None,
                StoreError::Storage(_) => true,
                _ => false,
            },
    {
        let db = self.hs.recorder_point;
        let items = self.raw_list(db)?;
        let mut out: Vec<RecorderPoint> = Vec::new();
        let mut k: usize = 0;
        while k < items.len()
            invariant
                k <= items@.len(),
                out@.len() == k,
                pairs_view(items@).len() == items@.len(),
                entries_match(pairs_view(items@), self.tables()[recorder_point_table()]),
                forall|q: int|
                    0 <= q < k ==> spec_dec_recorder_point(pairs_view(items@)[q].1) == Some(
                        #[trigger] out@[q]@,
                    ),
            decreases items@.len() - k,
        {
            let pair = &items[k];
            proof {
                assert(pairs_view(items@)[k as int] == (items@[k as int].0@, items@[k as int].1@));
            }
            match dec_recorder_point(&pair.1) {
                Some(x) => {
                    out.push(x);
                },
                None => {
                    proof {
                        assert(self.tables()[recorder_point_table()].contains_key(
                            pairs_view(items@)[k as int].0,
                        ));
                        assert(spec_dec_recorder_point(
                            self.tables()[recorder_point_table()][pairs_view(items@)[k as int].0],
                        ) is None);
                    }
                    return Err(StoreError::Corrupted);
                },
            }
            k = k + 1;
        }
        proof {
            assert(entries_match(pairs_view(items@), self.tables()[recorder_point_table()]));
        }
        Ok(out)
    }

    /// Stores a watch under its id, creating or overwriting it.
    pub fn create_watch(&mut self, watch: &Watches) -> (r: Result<(), StoreError>)
        requires
            old(self).wf(),
        ensures
            final(self).wf(),
            r matches Ok(()) ==> final(self).tables() == old(self).tables().insert(
                watches_table(),
                old(self).tables()[watches_table()].insert(watch.watch_id@, spec_enc_watches(watch@)),
            ) && watches_bounded(watch@),
            r matches Err(e) ==> final(self).tables() == old(self).tables() && e
                matches StoreError::Storage(_),
    {
        let db = self.hs.watches;
        let bytes = enc_watches(watch);
        self.raw_put(db, watch.watch_id.as_str(), bytes.as_slice())
    }

    /// Overwrites a watch; creating and updating are one operation.
    pub fn update_watch(&mut self, watch: &Watches) -> (r: Result<(), StoreError>)
        requires
            old(self).wf(),
        ensures
            final(self).wf(),
            r matches Ok(()) ==> final(self).tables() == old(self).tables().insert(
                watches_table(),
                old(self).tables()[watches_table()].insert(watch.watch_id@, spec_enc_watches(watch@)),
            ) && watches_bounded(watch@),
            r matches Err(e) ==> final(self).tables() == old(self).tables() && e
                matches StoreError::Storage(_),
    {
        self.create_watch(watch)
    }

    /// Looks a watch up by id; absence is not an error.
    pub fn get_watch(&self, id: &str) -> (r: Result<Option<Watches>, StoreError>)
        requires
            self.wf(),
        ensures
            r matches Ok(o) ==> match o {
                Some(x) => self.tables()[watches_table()].contains_key(id@) && spec_dec_watches(
                    self.tables()[watches_table()][id@],
                ) == Some(x@),
                None => !self.tables()[watches_table()].contains_key(id@),
            },
            r matches Err(e) ==> match e {
                StoreError::Corrupted => self.tables()[watches_table()].contains_key(id@)
                    && spec_dec_watches(self.tables()[watches_table()][id@]) is None,
                StoreError::Storage(_) => true,
                _ => false,
            },
    {
        let db = self.hs.watches;
        match self.raw_get(db, id)? {
            Some(bytes) => match dec_watches(&bytes) {
                Some(x) => Ok(Some(x)),
                None => Err(StoreError::Corrupted),
            },
            None => Ok(None),
        }
    }

    /// Deletes a watch by id; the result says whether one existed.
    pub fn delete_watch(&mut self, id: &str) -> (r: Result<bool, StoreError>)
        requires
            old(self).wf(),
        ensures
            final(self).wf(),
            r matches Ok(existed) ==> existed == old(self).tables()[watches_table()].contains_key(id@)
                && final(self).tables() == old(self).tables().insert(
                watches_table(),
                old(self).tables()[watches_table()].remove(id@),
            ),
            r matches Err(e) ==> final(self).tables() == old(self).tables() && e
                matches StoreError::Storage(_),
    {
        let db = self.hs.watches;
        self.raw_delete(db, id)
    }

    /// Every watch, in increasing id order.
    pub fn get_all_watches(&self) -> (r: Result<Vec<Watches>, StoreError>)
        requires
            self.wf(),
        ensures
            r matches Ok(list) ==> exists|entries: Seq<(Seq<char>, Seq<u8>)>|
                #[trigger] entries_match(entries, self.tables()[watches_table()]) && list@.len()
                    == entries.len() && (forall|k: int|
                    0 <= k < entries.len() ==> spec_dec_watches((#[trigger] entries[k]).1) == Some(
                        list@[k]@,
                    )),
            r matches Err(e) ==> match e {
                StoreError::Corrupted => exists|key: Seq<char>|
                    #[trigger] self.tables()[watches_table()].contains_key(key) && spec_dec_watches(
                        self.tables()[watches_table()][key],
                    ) is None,
                StoreError::Storage(_) => true,
                _ => false,
            },
    {
        let db = self.hs.watches;
        let items = self.raw_list(db)?;
        let mut out: Vec<Watches> = Vec::new();
        let mut k: usize = 0;
        while k < items.len()
            invariant
                k <= items@.len(),
                out@.len() == k,
                pairs_view(items@).len() == items@.len(),
                entries_match(pairs_view(items@), self.tables()[watches_table()]),
                forall|q: int|
                    0 <= q < k ==> spec_dec_watches(pairs_view(items@)[q].1) == Some(
                        #[trigger] out@[q]@,
                    ),
            decreases items@.len() - k,
        {
            let pair = &items[k];
            proof {
                assert(pairs_view(items@)[k as int] == (items@[k as int].0@, items@[k as int].1@));
            }
            match dec_watches(&pair.1) {
                Some(x) => {
                    out.push(x);
                },
                None => {
                    proof {
                        assert(self.tables()[watches_table()].contains_key(
                            pairs_view(items@)[k as int].0,
                        ));
                        assert(spec_dec_watches(
                            self.tables()[watches_table()][pairs_view(items@)[k as int].0],
                        ) is None);
                    }
                    return Err(StoreError::Corrupted);
                },
            }
            k = k + 1;
        }
        proof {
            assert(entries_match(pairs_view(items@), self.tables()[watches_table()]));
        }
        Ok(out)
    }

    /// Looks a movement up by id; absence is not an error.
    pub fn get_movement(&self, id: &str) -> (r: Result<Option<Movements>, StoreError>)
        requires
            self.wf(),
        ensures
            r matches Ok(o) ==> match o {
                Some(x) => self.tables()[movements_table()].contains_key(id@) && spec_dec_movements(
                    self.tables()[movements_table()][id@],
                ) == Some(x@),
                None => !self.tables()[movements_table()].contains_key(id@),
            },
            r matches Err(e) ==> match e {
                StoreError::Corrupted => self.tables()[movements_table()].contains_key(id@)
                    && spec_dec_movements(self.tables()[movements_table()][id@]) is None,
                StoreError::Storage(_) => true,
                _ => false,
            },
    {
        let db = self.hs.movements;
        match self.raw_get(db, id)? {
            Some(bytes) => match dec_movements(&bytes) {
                Some(x) => Ok(Some(x)),
                None => Err(StoreError::Corrupted),
            },
            None => Ok(None),
        }
    }

    /// Every movement, in increasing id order.
    pub fn get_all_movements(&self) -> (r: Result<Vec<Movements>, StoreError>)
        requires
            self.wf(),
        ensures
            r matches Ok(list) ==> exists|entries: Seq<(Seq<char>, Seq<u8>)>|
                #[trigger] entries_match(entries, self.tables()[movements_table()]) && list@.len()
                    == entries.len() && (forall|k: int|
                    0 <= k < entries.len() ==> spec_dec_movements((#[trigger] entries[k]).1) == Some(
                        list@[k]@,
                    )),
            r matches Err(e) ==> match e {
                StoreError::Corrupted => exists|key: Seq<char>|
                    #[trigger] self.tables()[movements_table()].contains_key(key) && spec_dec_movements(
                        self.tables()[movements_table()][key],
                    ) is None,
                StoreError::Storage(_) => true,
                _ => false,
            },
    {
        let db = self.hs.movements;
        let items = self.raw_list(db)?;
        let mut out: Vec<Movements> = Vec::new();
        let mut k: usize = 0;
        while k < items.len()
            invariant
                k <= items@.len(),
                out@.len() == k,
                pairs_view(items@).len() == items@.len(),
                entries_match(pairs_view(items@), self.tables()[movements_table()]),
                forall|q: int|
                    0 <= q < k ==> spec_dec_movements(pairs_view(items@)[q].1) == Some(
                        #[trigger] out@[q]@,
                    ),
            decreases items@.len() - k,
        {
            let pair = &items[k];
            proof {
                assert(pairs_view(items@)[k as int] == (items@[k as int].0@, items@[k as int].1@));
            }
            match dec_movements(&pair.1) {
                Some(x) => {
                    out.push(x);
                },
                None => {
                    proof {
                        assert(self.tables()[movements_table()].contains_key(
                            pairs_view(items@)[k as int].0,
                        ));
                        assert(spec_dec_movements(
                            self.tables()[movements_table()][pairs_view(items@)[k as int].0],
                        ) is None);
                    }
                    return Err(StoreError::Corrupted);
                },
            }
            k = k + 1;
        }
        proof {
            assert(entries_match(pairs_view(items@), self.tables()[movements_table()]));
        }
        Ok(out)
    }

}


// ---------------------------------------------------------------------------
// The movement processor and the relationship manager.
// ---------------------------------------------------------------------------

/// The tables after recording one movement.  The movement record itself is
/// stored unconditionally; if the named component exists, its quantities are
/// adjusted in the same step.  A missing or unnamed component skips the
/// adjustment; undecodable component bytes, an excessive debit and an
/// overflowing credit refuse the whole movement.
pub open spec fn spec_record_movement(t: TablesV, m: MovementsV) -> Result<TablesV, StoreError> {
    let recorded = t.insert(
        movements_table(),
        t[movements_table()].insert(m.movement_id, spec_enc_movements(m)),
    );
    match m.component_name {
        None => Ok(recorded),
        Some(cname) => if !t[components_table()].contains_key(cname) {
            Ok(recorded)
        } else {
            match spec_dec_components(t[components_table()][cname]) {
                None => Err(StoreError::Corrupted),
                Some(c) => match spec_move_component(
                    c,
                    m.source_location,
                    m.destination_location,
                    m.quantity,
                ) {
                    Err(MovementFault::InsufficientStock) => Err(StoreError::InsufficientStock),
                    Err(MovementFault::QuantityOverflow) => Err(StoreError::QuantityOverflow),
                    Ok(c2) => {
                        let t1 = t.insert(
                            components_table(),
                            t[components_table()].insert(cname, spec_enc_components(c2)),
                        );
                        Ok(
                            t1.insert(
                                movements_table(),
                                t1[movements_table()].insert(m.movement_id, spec_enc_movements(m)),
                            ),
                        )
                    },
                },
            }
        },
    }
}

/// The tables after linking a component id into a product.  A missing
/// product is a silent no-op; an existing product gets the id appended to
/// its component list unless the list already holds it.
pub open spec fn spec_link_tables(t: TablesV, pid: Seq<char>, cid: Seq<char>) -> Result<
    TablesV,
    StoreError,
> {
    if !t[products_table()].contains_key(pid) {
        Ok(t)
    } else {
        match spec_dec_products(t[products_table()][pid]) {
            None => Err(StoreError::Corrupted),
            Some(p) => Ok(
                t.insert(
                    products_table(),
                    t[products_table()].insert(pid, spec_enc_products(spec_link_component(p, cid))),
                ),
            ),
        }
    }
}

/// The component records a list of ids resolves to, in list order; ids with
/// no record are skipped, and `None` stands for undecodable bytes.
pub open spec fn spec_resolve_components(t: TablesV, ids: Seq<Seq<char>>) -> Option<
    Seq<ComponentsV>,
>
    decreases ids.len(),
{
    if ids.len() == 0 {
        Some(Seq::empty())
    } else if t[components_table()].contains_key(ids[0]) {
        match spec_dec_components(t[components_table()][ids[0]]) {
            Some(c) => match spec_resolve_components(t, ids.drop_first()) {
                Some(rest) => Some(seq![c] + rest),
                None => None,
            },
            None => None,
        }
    } else {
        spec_resolve_components(t, ids.drop_first())
    }
}

/// The records of a product's linked components.  A missing product and a
/// product with no linked components both resolve to the empty sequence.
pub open spec fn spec_product_components(t: TablesV, pid: Seq<char>) -> Option<Seq<ComponentsV>> {
    if !t[products_table()].contains_key(pid) {
        Some(Seq::empty())
    } else {
        match spec_dec_products(t[products_table()][pid]) {
            None => None,
            Some(p) => match p.components {
                None => Some(Seq::empty()),
                Some(ids) => spec_resolve_components(t, ids),
            },
        }
    }
}

impl InventoryDB {
    /// Records one stock movement.  The debit of the source location, the
    /// credit of the destination and the movement record itself are written
    /// in one transaction: either all of it is stored or none of it.
    pub fn record_movement(&mut self, movement: &Movements) -> (r: Result<(), StoreError>)
        requires
            old(self).wf(),
        ensures
            final(self).wf(),
            r matches Ok(()) ==> spec_record_movement(old(self).tables(), movement@) matches Ok(t2)
                && final(self).tables() == t2,
            r matches Err(e) ==> final(self).tables() == old(self).tables() && match e {
                StoreError::Storage(_) => true,
                _ => spec_record_movement(old(self).tables(), movement@) == Err::<
                    TablesV,
                    StoreError,
                >(e),
            },
    {
        let mdb = self.hs.movements;
        let cdb = self.hs.components;
        let m_bytes = enc_movements(movement);
        match &movement.component_name {
            Option::None => self.raw_put(mdb, movement.movement_id.as_str(), m_bytes.as_slice()),
            Option::Some(cname) => {
                match self.raw_get(cdb, cname.as_str())? {
                    None => self.raw_put(
                        mdb,
                        movement.movement_id.as_str(),
                        m_bytes.as_slice(),
                    ),
                    Some(bytes) => {
                        let c = match dec_components(&bytes) {
                            Some(c) => c,
                            None => {
                                return Err(StoreError::Corrupted);
                            },
                        };
                        let c2 = match move_component(
                            &c,
                            movement.source_location.as_str(),
                            movement.destination_location.as_str(),
                            movement.quantity,
                        ) {
                            Ok(c2) => c2,
                            Err(MovementFault::InsufficientStock) => {
                                return Err(StoreError::InsufficientStock);
                            },
                            Err(MovementFault::QuantityOverflow) => {
                                return Err(StoreError::QuantityOverflow);
                            },
                        };
                        let c_bytes = enc_components(&c2);
                        self.raw_put_pair(
                            cdb,
                            cname.as_str(),
                            c_bytes.as_slice(),
                            mdb,
                            movement.movement_id.as_str(),
                            m_bytes.as_slice(),
                        )
                    },
                }
            },
        }
    }

    /// Links a component id into a product's component list, idempotently.
    /// A product id with no record is a silent no-op.
    pub fn add_component_to_product(&mut self, product_id: &str, component_id: &str) -> (r: Result<
        (),
        StoreError,
    >)
        requires
            old(self).wf(),
        ensures
            final(self).wf(),
            r matches Ok(()) ==> spec_link_tables(old(self).tables(), product_id@, component_id@)
                matches Ok(t2) && final(self).tables() == t2,
            r matches Err(e) ==> final(self).tables() == old(self).tables() && match e {
                StoreError::Storage(_) => true,
                _ => spec_link_tables(old(self).tables(), product_id@, component_id@) == Err::<
                    TablesV,
                    StoreError,
                >(e),
            },
    {
        let pdb = self.hs.products;
        match self.raw_get(pdb, product_id)? {
            None => Ok(()),
            Some(bytes) => {
                let p = match dec_products(&bytes) {
                    Some(p) => p,
                    None => {
                        return Err(StoreError::Corrupted);
                    },
                };
                let p2 = link_component(&p, component_id);
                let p_bytes = enc_products(&p2);
                self.raw_put(pdb, product_id, p_bytes.as_slice())
            },
        }
    }

    /// The records of a product's linked components, in list order.  Ids
    /// with no record are skipped; a missing product and an empty list both
    /// yield the empty vector.
    pub fn get_product_components(&self, product_id: &str) -> (r: Result<
        Vec<Components>,
        StoreError,
    >)
        requires
            self.wf(),
        ensures
            r matches Ok(list) ==> spec_product_components(self.tables(), product_id@) matches Some(
                cs,
            ) && list@.len() == cs.len() && (forall|k: int|
                0 <= k < cs.len() ==> #[trigger] list@[k]@ == cs[k]),
            r matches Err(e) ==> match e {
                StoreError::Corrupted => spec_product_components(self.tables(), product_id@)
                    is None,
                StoreError::Storage(_) => true,
                _ => false,
            },
    {
        let pdb = self.hs.products;
        let cdb = self.hs.components;
        let p = match self.raw_get(pdb, product_id)? {
            None => {
                return Ok(Vec::new());
            },
            Some(bytes) => match dec_products(&bytes) {
                Some(p) => p,
                None => {
                    return Err(StoreError::Corrupted);
                },
            },
        };
        let ids = match &p.components {
            Option::None => {
                return Ok(Vec::new());
            },
            Option::Some(ids) => ids,
        };
        let ghost idsv = ids.deep_view();
        let mut out: Vec<Components> = Vec::new();
        let mut k: usize = 0;
        proof {
            assert(idsv.skip(0int) =~= idsv);
        }
        while k < ids.len()
            invariant
                self.wf(),
                k <= ids@.len(),
                idsv.len() == ids@.len(),
                idsv == ids.deep_view(),
                db_env_ident(cdb) == env_ident(self.hs.env),
                db_table_name(cdb) == components_table(),
                spec_product_components(self.tables(), product_id@) == spec_resolve_components(
                    self.tables(),
                    idsv,
                ),
                match spec_resolve_components(self.tables(), idsv.skip(k as int)) {
                    Some(rest) => spec_resolve_components(self.tables(), idsv) == Some(
                        components_views(out@) + rest,
                    ),
                    None => spec_resolve_components(self.tables(), idsv) is None,
                },
            decreases ids@.len() - k,
        {
            let ghost old_out = out@;
            proof {
                assert(idsv.skip(k as int)[0] == idsv[k as int]);
                assert(idsv.skip(k as int).drop_first() =~= idsv.skip(k as int + 1));
                assert(ids@[k as int]@ == idsv[k as int]);
            }
            match self.raw_get(cdb, ids[k].as_str())? {
                None => {},
                Some(bytes) => {
                    match dec_components(&bytes) {
                        Some(c) => {
                            out.push(c);
                            proof {
                                assert(components_views(out@) =~= components_views(old_out).push(
                                    c@,
                                ));
                                assert forall|rest: Seq<ComponentsV>|
                                    components_views(old_out) + (seq![c@] + rest)
                                        =~= components_views(out@) + rest by {}
                            }
                        },
                        None => {
                            return Err(StoreError::Corrupted);
                        },
                    }
                },
            }
            k = k + 1;
        }
        proof {
            assert(idsv.skip(ids@.len() as int) =~= Seq::<Seq<char>>::empty());
            assert(spec_resolve_components(self.tables(), idsv.skip(ids@.len() as int)) == Some(
                Seq::<ComponentsV>::empty(),
            ));
            assert(components_views(out@) + Seq::<ComponentsV>::empty() =~= components_views(
                out@,
            ));
        }
        Ok(out)
    }

    /// The stock every component holds at the named location, as pairs of
    /// component name and count, in increasing component-id order.  An
    /// unrecognized location tag counts zero everywhere.
    pub fn get_inventory_levels(&self, location: &str) -> (r: Result<
        Vec<(String, u64)>,
        StoreError,
    >)
        requires
            self.wf(),
        ensures
            r matches Ok(list) ==> exists|entries: Seq<(Seq<char>, Seq<u8>)>|
                #[trigger] entries_match(entries, self.tables()[components_table()]) && list@.len()
                    == entries.len() && (forall|k: int|
                    0 <= k < entries.len() ==> (spec_dec_components((#[trigger] entries[k]).1)
                        matches Some(c) && list@[k].0@ == c.component_name && list@[k].1
                        == spec_level_of(c, location@))),
            r matches Err(e) ==> match e {
                StoreError::Corrupted => exists|key: Seq<char>|
                    #[trigger] self.tables()[components_table()].contains_key(key)
                        && spec_dec_components(self.tables()[components_table()][key]) is None,
                StoreError::Storage(_) => true,
                _ => false,
            },
    {
        let db = self.hs.components;
        let items = self.raw_list(db)?;
        let mut out: Vec<(String, u64)> = Vec::new();
        let mut k: usize = 0;
        while k < items.len()
            invariant
                k <= items@.len(),
                out@.len() == k,
                pairs_view(items@).len() == items@.len(),
                entries_match(pairs_view(items@), self.tables()[components_table()]),
                levels_prefix_ok(items@, out@, k as int, location@),
            decreases items@.len() - k,
        {
            let pair = &items[k];
            proof {
                assert(pairs_view(items@)[k as int] == (items@[k as int].0@, items@[k as int].1@));
            }
            match dec_components(&pair.1) {
                Some(c) => {
                    let ghost old_out = out@;
                    let level = level_of(&c, location);
                    let name = c.component_name.clone();
                    proof {
                        lemma_levels_prefix_push(
                            items@,
                            old_out,
                            k as int,
                            c@,
                            name,
                            level,
                            location@,
                        );
                    }
                    out.push((name, level));
                },
                None => {
                    proof {
                        assert(self.tables()[components_table()].contains_key(
                            pairs_view(items@)[k as int].0,
                        ));
                        assert(spec_dec_components(
                            self.tables()[components_table()][pairs_view(items@)[k as int].0],
                        ) is None);
                    }
                    return Err(StoreError::Corrupted);
                },
            }
            k = k + 1;
        }
        proof {
            assert(entries_match(pairs_view(items@), self.tables()[components_table()]));
            assert(out@.len() == pairs_view(items@).len());
            assert forall|q: int|
                0 <= q < pairs_view(items@).len() implies (spec_dec_components((#[trigger] pairs_view(
                items@,
            )[q]).1) matches Some(c) && out@[q].0@ == c.component_name && out@[q].1
                == spec_level_of(c, location@)) by {
                assert(level_entry_ok(items@, out@[q], q, location@));
            }
        }
        Ok(out)
    }
}

/// The views of a sequence of component records.
pub open spec fn components_views(l: Seq<Components>) -> Seq<ComponentsV> {
    l.map_values(|c: Components| c@)
}

/// One more decoded component extends a correct prefix by one entry.
proof fn lemma_levels_prefix_push(
    items: Seq<(String, Vec<u8>)>,
    out0: Seq<(String, u64)>,
    k: int,
    c: ComponentsV,
    name: String,
    level: u64,
    loc: Seq<char>,
)
    requires
        0 <= k,
        out0.len() == k,
        levels_prefix_ok(items, out0, k, loc),
        k < pairs_view(items).len(),
        spec_dec_components(pairs_view(items)[k].1) == Some(c),
        name@ == c.component_name,
        level == spec_level_of(c, loc),
    ensures
        levels_prefix_ok(items, out0.push((name, level)), k + 1, loc),
{
    assert forall|q: int|
        0 <= q < k + 1 implies level_entry_ok(
        items,
        #[trigger] out0.push((name, level))[q],
        q,
        loc,
    ) by {
        if q < k {
            assert(out0.push((name, level))[q] == out0[q]);
            assert(level_entry_ok(items, out0[q], q, loc));
        } else {
            assert(out0.push((name, level))[q] == (name, level));
            assert(level_entry_ok(items, (name, level), q, loc));
        }
    }
}

/// One listed component was decoded and mapped to its name and its count at
/// the location.
pub open spec fn level_entry_ok(
    items: Seq<(String, Vec<u8>)>,
    entry: (String, u64),
    q: int,
    loc: Seq<char>,
) -> bool {
    &&& spec_dec_components(pairs_view(items)[q].1) is Some
    &&& entry.0@ == spec_dec_components(pairs_view(items)[q].1).unwrap().component_name
    &&& entry.1 == spec_level_of(spec_dec_components(pairs_view(items)[q].1).unwrap(), loc)
}

/// The first `k` listed components were each decoded and mapped to their
/// name and their count at the location.
pub open spec fn levels_prefix_ok(
    items: Seq<(String, Vec<u8>)>,
    out: Seq<(String, u64)>,
    k: int,
    loc: Seq<char>,
) -> bool {
    forall|q: int| 0 <= q < k ==> level_entry_ok(items, #[trigger] out[q], q, loc)
}

// ---------------------------------------------------------------------------
// Laws of the store, stated over its model.
// ---------------------------------------------------------------------------

/// What a successful product decode means: the value is bounded and encodes
/// back to the stored bytes.
pub proof fn lemma_spec_dec_products_props(b: Seq<u8>, p: ProductsV)
    requires
        spec_dec_products(b) == Some(p),
    ensures
        products_bounded(p),
        spec_enc_products(p) == b,
{
    let w = choose|v: ProductsV| products_bounded(v) && spec_enc_products(v) == b;
    assert(products_bounded(w) && spec_enc_products(w) == b);
}

/// What a successful component decode means: the value is bounded and
/// encodes back to the stored bytes.
pub proof fn lemma_spec_dec_components_props(b: Seq<u8>, c: ComponentsV)
    requires
        spec_dec_components(b) == Some(c),
    ensures
        components_bounded(c),
        spec_enc_components(c) == b,
{
    let w = choose|v: ComponentsV| components_bounded(v) && spec_enc_components(v) == b;
    assert(components_bounded(w) && spec_enc_components(w) == b);
}

/// A component record's boundedness rests on its four strings alone: every
/// other field is a plain number.
proof fn lemma_components_bounded_strings(v: ComponentsV)
    ensures
        components_bounded(v) <==> (str_bounded(v.product_id) && str_bounded(v.product_name)
            && str_bounded(v.component_name) && str_bounded(v.component_id)),
{
    if str_bounded(v.product_id) && str_bounded(v.product_name) && str_bounded(v.component_name)
        && str_bounded(v.component_id) {
        assert forall|k: int|
            0 <= k < components_fields(v).len() implies field_bounded(
            #[trigger] components_fields(v)[k],
        ) by {
            if k == 0 {
                assert(components_fields(v)[0] == FieldV::S(v.product_id));
            } else if k == 1 {
                assert(components_fields(v)[1] == FieldV::S(v.product_name));
            } else if k == 2 {
                assert(components_fields(v)[2] == FieldV::S(v.component_name));
            } else if k == 3 {
                assert(components_fields(v)[3] == FieldV::S(v.component_id));
            } else {
                assert(components_fields(v)[k] is U64);
            }
        }
    }
    if components_bounded(v) {
        assert(field_bounded(components_fields(v)[0]));
        assert(field_bounded(components_fields(v)[1]));
        assert(field_bounded(components_fields(v)[2]));
        assert(field_bounded(components_fields(v)[3]));
    }
}

/// A movement never touches a component's strings, so it keeps the record
/// bounded.
proof fn lemma_move_preserves_bounded(c: ComponentsV, src: Seq<char>, dst: Seq<char>, q: u64)
    requires
        components_bounded(c),
        spec_move_component(c, src, dst, q) is Ok,
    ensures
        components_bounded(spec_move_component(c, src, dst, q).unwrap()),
{
    let c2 = spec_move_component(c, src, dst, q).unwrap();
    lemma_components_bounded_strings(c);
    lemma_components_bounded_strings(c2);
    assert(c2.product_id == c.product_id && c2.product_name == c.product_name
        && c2.component_name == c.component_name && c2.component_id == c.component_id);
}

/// Round trip: storing a product and looking its id up yields it back.
pub proof fn lemma_store_round_trip_products(t: TablesV, p: ProductsV)
    requires
        products_bounded(p),
    ensures
        ({
            let t2 = t.insert(
                products_table(),
                t[products_table()].insert(p.product_id, spec_enc_products(p)),
            );
            t2[products_table()].contains_key(p.product_id) && spec_dec_products(
                t2[products_table()][p.product_id],
            ) == Some(p)
        }),
{
    lemma_products_round_trip(p);
}

/// Deleting an id leaves nothing under it: a get after a delete finds no
/// record, in any table.
pub proof fn lemma_delete_then_get(t: TablesV, name: Seq<char>, id: Seq<char>)
    ensures
        !t.insert(name, t[name].remove(id))[name].contains_key(id),
{
}

/// A missing product and a product with no linked components both list no
/// components.
pub proof fn lemma_list_components_empty(t: TablesV, pid: Seq<char>)
    requires
        !t[products_table()].contains_key(pid) || (spec_dec_products(t[products_table()][pid])
            matches Some(p) && p.components is None),
    ensures
        spec_product_components(t, pid) == Some(Seq::<ComponentsV>::empty()),
{
}

/// Linking the same component twice leaves the tables exactly as one link
/// does.  The one input left out: a record whose linked form no longer fits
/// its length prefixes.
pub proof fn lemma_store_link_idempotent(t: TablesV, pid: Seq<char>, cid: Seq<char>)
    requires
        spec_dec_products(t[products_table()][pid]) matches Some(p) ==> products_bounded(
            spec_link_component(p, cid),
        ),
    ensures
        spec_link_tables(t, pid, cid) matches Ok(t1) ==> spec_link_tables(t1, pid, cid) == Ok::<
            TablesV,
            StoreError,
        >(t1),
{
    match spec_link_tables(t, pid, cid) {
        Ok(t1) => {
            if t[products_table()].contains_key(pid) {
                let p = spec_dec_products(t[products_table()][pid]).unwrap();
                let p1 = spec_link_component(p, cid);
                assert(t1 == t.insert(
                    products_table(),
                    t[products_table()].insert(pid, spec_enc_products(p1)),
                ));
                assert(t1[products_table()].contains_key(pid));
                assert(t1[products_table()][pid] == spec_enc_products(p1));
                lemma_products_round_trip(p1);
                lemma_link_idempotent(p, cid);
                assert(spec_link_component(p1, cid) == p1);
                assert(t1.insert(
                    products_table(),
                    t1[products_table()].insert(pid, spec_enc_products(p1)),
                ) =~~= t1);
            }
        },
        Err(_) => {
        },
    }
}

/// After a link the stored product's component list holds the id exactly
/// once, provided it held it at most once before, as lists built by the
/// linker do.  The one input left out: a record whose linked form no longer
/// fits its length prefixes.
pub proof fn lemma_store_link_exactly_once(t: TablesV, pid: Seq<char>, cid: Seq<char>)
    requires
        t[products_table()].contains_key(pid),
        spec_dec_products(t[products_table()][pid]) matches Some(p) && (p.components matches Some(
            l,
        ) ==> occurrences(l, cid) <= 1) && products_bounded(spec_link_component(p, cid)),
    ensures
        ({
            let t1 = spec_link_tables(t, pid, cid).unwrap();
            &&& spec_link_tables(t, pid, cid) is Ok
            &&& t1[products_table()].contains_key(pid)
            &&& (spec_dec_products(t1[products_table()][pid]) matches Some(p1)
                && p1.components matches Some(l1) && occurrences(l1, cid) == 1)
        }),
{
    let p = spec_dec_products(t[products_table()][pid]).unwrap();
    let p1 = spec_link_component(p, cid);
    lemma_products_round_trip(p1);
    lemma_link_exactly_once(p, cid);
}

/// A movement that names a missing component still records the movement and
/// creates no component record.
pub proof fn lemma_missing_component_movement(t: TablesV, m: MovementsV)
    requires
        m.component_name matches Some(cname) && !t[components_table()].contains_key(cname),
    ensures
        spec_record_movement(t, m) matches Ok(t2) && t2[movements_table()].contains_key(
            m.movement_id,
        ) && t2[movements_table()][m.movement_id] == spec_enc_movements(m) && t2[components_table()]
            == t[components_table()],
{
    lemma_table_names_distinct();
}

/// Movement conservation at the store: after a successful movement on an
/// existing, well-formed component, the stored component is exactly the
/// adjusted record and the movement record is stored beside it.
pub proof fn lemma_store_movement_applied(t: TablesV, m: MovementsV)
    requires
        m.component_name is Some,
        t[components_table()].contains_key(m.component_name.unwrap()),
        spec_dec_components(t[components_table()][m.component_name.unwrap()]) is Some,
        spec_move_component(
            spec_dec_components(t[components_table()][m.component_name.unwrap()]).unwrap(),
            m.source_location,
            m.destination_location,
            m.quantity,
        ) is Ok,
    ensures
        ({
            let c = spec_dec_components(t[components_table()][m.component_name.unwrap()]).unwrap();
            let c2 = spec_move_component(
                c,
                m.source_location,
                m.destination_location,
                m.quantity,
            ).unwrap();
            &&& spec_record_movement(t, m) matches Ok(t2)
            &&& spec_record_movement(t, m).unwrap()[components_table()].contains_key(
                m.component_name.unwrap(),
            )
            &&& spec_dec_components(
                spec_record_movement(t, m).unwrap()[components_table()][m.component_name.unwrap()],
            ) == Some(c2)
            &&& spec_record_movement(t, m).unwrap()[movements_table()].contains_key(m.movement_id)
            &&& spec_record_movement(t, m).unwrap()[movements_table()][m.movement_id]
                == spec_enc_movements(m)
        }),
{
    lemma_table_names_distinct();
    let cname = m.component_name.unwrap();
    let c = spec_dec_components(t[components_table()][cname]).unwrap();
    let c2 = spec_move_component(c, m.source_location, m.destination_location, m.quantity).unwrap();
    lemma_spec_dec_components_props(t[components_table()][cname], c);
    lemma_move_preserves_bounded(c, m.source_location, m.destination_location, m.quantity);
    lemma_components_round_trip(c2);
}

/// Round trip: storing a component and looking its id up yields it back.
pub proof fn lemma_store_round_trip_components(t: TablesV, v: ComponentsV)
    requires
        components_bounded(v),
    ensures
        ({
            let t2 = t.insert(
                components_table(),
                t[components_table()].insert(v.component_id, spec_enc_components(v)),
            );
            t2[components_table()].contains_key(v.component_id) && spec_dec_components(
                t2[components_table()][v.component_id],
            ) == Some(v)
        }),
{
    lemma_components_round_trip(v);
}

/// Round trip: storing a movement and looking its id up yields it back.
pub proof fn lemma_store_round_trip_movements(t: TablesV, v: MovementsV)
    requires
        movements_bounded(v),
    ensures
        ({
            let t2 = t.insert(
                movements_table(),
                t[movements_table()].insert(v.movement_id, spec_enc_movements(v)),
            );
            t2[movements_table()].contains_key(v.movement_id) && spec_dec_movements(
                t2[movements_table()][v.movement_id],
            ) == Some(v)
        }),
{
    lemma_movements_round_trip(v);
}

/// Round trip: storing a supplier order and looking its id up yields it back.
pub proof fn lemma_store_round_trip_suppliers_orders(t: TablesV, v: SuppliersOrdersV)
    requires
        suppliers_orders_bounded(v),
    ensures
        ({
            let t2 = t.insert(
                suppliers_orders_table(),
                t[suppliers_orders_table()].insert(v.order_id, spec_enc_suppliers_orders(v)),
            );
            t2[suppliers_orders_table()].contains_key(v.order_id) && spec_dec_suppliers_orders(
                t2[suppliers_orders_table()][v.order_id],
            ) == Some(v)
        }),
{
    lemma_suppliers_orders_round_trip(v);
}

/// Round trip: storing a order and looking its id up yields it back.
pub proof fn lemma_store_round_trip_orders(t: TablesV, v: OrdersV)
    requires
        orders_bounded(v),
    ensures
        ({
            let t2 = t.insert(
                orders_table(),
                t[orders_table()].insert(v.order_id, spec_enc_orders(v)),
            );
            t2[orders_table()].contains_key(v.order_id) && spec_dec_orders(
                t2[orders_table()][v.order_id],
            ) == Some(v)
        }),
{
    lemma_orders_round_trip(v);
}

/// Round trip: storing a procurement group and looking its id up yields it back.
pub proof fn lemma_store_round_trip_procurements(t: TablesV, v: ProcurementsV)
    requires
        procurements_bounded(v),
    ensures
        ({
            let t2 = t.insert(
                procurements_table(),
                t[procurements_table()].insert(v.procurement_id, spec_enc_procurements(v)),
            );
            t2[procurements_table()].contains_key(v.procurement_id) && spec_dec_procurements(
                t2[procurements_table()][v.procurement_id],
            ) == Some(v)
        }),
{
    lemma_procurements_round_trip(v);
}

/// Round trip: storing a assembly timeline and looking its id up yields it back.
pub proof fn lemma_store_round_trip_assembly_time_line(t: TablesV, v: AssemblyTimeLineV)
    requires
        assembly_time_line_bounded(v),
    ensures
        ({
            let t2 = t.insert(
                assembly_timeline_table(),
                t[assembly_timeline_table()].insert(v.assembly_id, spec_enc_assembly_time_line(v)),
            );
            t2[assembly_timeline_table()].contains_key(v.assembly_id) && spec_dec_assembly_time_line(
                t2[assembly_timeline_table()][v.assembly_id],
            ) == Some(v)
        }),
{
    lemma_assembly_time_line_round_trip(v);
}

/// Round trip: storing a production rate and looking its id up yields it back.
pub proof fn lemma_store_round_trip_production_rate(t: TablesV, v: ProductionRateV)
    requires
        production_rate_bounded(v),
    ensures
        ({
            let t2 = t.insert(
                production_rate_table(),
                t[production_rate_table()].insert(v.prodction_rate_id, spec_enc_production_rate(v)),
            );
            t2[production_rate_table()].contains_key(v.prodction_rate_id) && spec_dec_production_rate(
                t2[production_rate_table()][v.prodction_rate_id],
            ) == Some(v)
        }),
{
    lemma_production_rate_round_trip(v);
}

/// Round trip: storing a reorder point and looking its id up yields it back.
pub proof fn lemma_store_round_trip_recorder_point(t: TablesV, v: RecorderPointV)
    requires
        recorder_point_bounded(v),
    ensures
        ({
            let t2 = t.insert(
                recorder_point_table(),
                t[recorder_point_table()].insert(v.recorder_point_id, spec_enc_recorder_point(v)),
            );
            t2[recorder_point_table()].contains_key(v.recorder_point_id) && spec_dec_recorder_point(
                t2[recorder_point_table()][v.recorder_point_id],
            ) == Some(v)
        }),
{
    lemma_recorder_point_round_trip(v);
}

/// Round trip: storing a watch and looking its id up yields it back.
pub proof fn lemma_store_round_trip_watches(t: TablesV, v: WatchesV)
    requires
        watches_bounded(v),
    ensures
        ({
            let t2 = t.insert(
                watches_table(),
                t[watches_table()].insert(v.watch_id, spec_enc_watches(v)),
            );
            t2[watches_table()].contains_key(v.watch_id) && spec_dec_watches(
                t2[watches_table()][v.watch_id],
            ) == Some(v)
        }),
{
    lemma_watches_round_trip(v);
}

} // verus!
