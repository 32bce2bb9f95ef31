use inventory_store::records::{
    AssemblyTimeLine, Components, Date, Movements, Orders, Procurement, Procurements,
    ProductionRate, Products, RecorderPoint, SuppliersOrders, Watches,
};
use inventory_store::store::{InventoryDB, StoreError};

fn open_fresh(dir: &tempfile::TempDir) -> InventoryDB {
    let mut db = InventoryDB::new(dir.path().to_str().unwrap()).expect("open store");
    db.clear_all().expect("clear");
    db
}

fn sample_date() -> Date {
    Date { year: 2023, month: 5, day: 15 }
}

fn sample_product(id: &str, wurenlos: u64) -> Products {
    Products {
        product_name: "BP Watch".to_string(),
        product_id: id.to_string(),
        components: None,
        cn: 100,
        kling: 50,
        st_jacob: 75,
        wurenlos,
        wurenlos_sold: 25,
        flf: 150,
        in_transit: 30,
        total_available: 600,
        reserver_for_orders: 150,
        waste: 5,
        customer: 0,
    }
}

fn sample_component(id: &str, cn: u64, wurenlos: u64) -> Components {
    Components {
        product_id: "PROD-001".to_string(),
        product_name: "BP Watch".to_string(),
        component_name: "Premium Dial".to_string(),
        component_id: id.to_string(),
        cn,
        kling: 20,
        st_jacob: 30,
        wurenlos,
        wurenlos_sold: 10,
        flf: 60,
        in_transit: 15,
        total_available: 245,
        ordered_surplus: 2550,
        reserver_for_orders: 60,
        waste: 2,
        customer: 0,
        assembly_line: 0,
    }
}

fn sample_movement(id: &str, component: Option<&str>, src: &str, dst: &str, qty: u64) -> Movements {
    Movements {
        movement_id: id.to_string(),
        transaction_id: "TRANS-001".to_string(),
        date: sample_date(),
        movement_type: "Component".to_string(),
        component_name: component.map(|s| s.to_string()),
        product_name: None,
        source_location: src.to_string(),
        destination_location: dst.to_string(),
        quantity: qty,
        notes: Some("Regular stock transfer".to_string()),
        status: "Completed".to_string(),
        supplier_order_id: None,
    }
}

#[test]
fn round_trip_product() {
    let dir = tempfile::TempDir::new().unwrap();
    let mut db = open_fresh(&dir);
    let mut p = sample_product("PROD-001", 200);
    p.components = Some(vec!["COMP-001".to_string(), "COMP-002".to_string()]);
    db.create_product(&p).unwrap();
    let got = db.get_product("PROD-001").unwrap().expect("present");
    assert_eq!(got.product_name, p.product_name);
    assert_eq!(got.product_id, p.product_id);
    assert_eq!(got.components, p.components);
    assert_eq!(got.cn, p.cn);
    assert_eq!(got.kling, p.kling);
    assert_eq!(got.st_jacob, p.st_jacob);
    assert_eq!(got.wurenlos, p.wurenlos);
    assert_eq!(got.wurenlos_sold, p.wurenlos_sold);
    assert_eq!(got.flf, p.flf);
    assert_eq!(got.in_transit, p.in_transit);
    assert_eq!(got.total_available, p.total_available);
    assert_eq!(got.reserver_for_orders, p.reserver_for_orders);
    assert_eq!(got.waste, p.waste);
    assert_eq!(got.customer, p.customer);
}

#[test]
fn round_trip_component() {
    let dir = tempfile::TempDir::new().unwrap();
    let mut db = open_fresh(&dir);
    let c = sample_component("COMP-001", 40, 80);
    db.create_component(&c).unwrap();
    let got = db.get_component("COMP-001").unwrap().expect("present");
    assert_eq!(got.product_id, c.product_id);
    assert_eq!(got.product_name, c.product_name);
    assert_eq!(got.component_name, c.component_name);
    assert_eq!(got.component_id, c.component_id);
    assert_eq!(got.cn, c.cn);
    assert_eq!(got.kling, c.kling);
    assert_eq!(got.st_jacob, c.st_jacob);
    assert_eq!(got.wurenlos, c.wurenlos);
    assert_eq!(got.wurenlos_sold, c.wurenlos_sold);
    assert_eq!(got.flf, c.flf);
    assert_eq!(got.in_transit, c.in_transit);
    assert_eq!(got.total_available, c.total_available);
    assert_eq!(got.ordered_surplus, c.ordered_surplus);
    assert_eq!(got.reserver_for_orders, c.reserver_for_orders);
    assert_eq!(got.waste, c.waste);
    assert_eq!(got.customer, c.customer);
    assert_eq!(got.assembly_line, c.assembly_line);
}

#[test]
fn round_trip_order() {
    let dir = tempfile::TempDir::new().unwrap();
    let mut db = open_fresh(&dir);
    let o = Orders {
        order_id: "ORD-001".to_string(),
        procurements: Some(vec!["PROC-001".to_string()]),
        supplier_orders: Some(vec!["SUPP-ORD-001".to_string()]),
        quanity_ordered: 50,
        product_id: "PROD-001".to_string(),
        product: "BP Watch".to_string(),
        quantity_required: 50,
        expected_delivery_date: sample_date(),
        production_start_date: sample_date(),
        expected_ship_date: sample_date(),
        recid: "REC-001".to_string(),
        order_status: "Processing".to_string(),
        total_components_booked: 100,
        components_notes: Some("Need expedited shipping".to_string()),
        components_required: 100,
        total_gap_components: Some(vec![20, 30]),
        components: Some(vec!["COMP-001".to_string(), "COMP-002".to_string()]),
    };
    db.create_order(&o).unwrap();
    let got = db.get_order("ORD-001").unwrap().expect("present");
    assert_eq!(got.order_id, o.order_id);
    assert_eq!(got.procurements, o.procurements);
    assert_eq!(got.supplier_orders, o.supplier_orders);
    assert_eq!(got.quanity_ordered, o.quanity_ordered);
    assert_eq!(got.product_id, o.product_id);
    assert_eq!(got.product, o.product);
    assert_eq!(got.quantity_required, o.quantity_required);
    assert_eq!(got.expected_delivery_date, o.expected_delivery_date);
    assert_eq!(got.production_start_date, o.production_start_date);
    assert_eq!(got.expected_ship_date, o.expected_ship_date);
    assert_eq!(got.recid, o.recid);
    assert_eq!(got.order_status, o.order_status);
    assert_eq!(got.total_components_booked, o.total_components_booked);
    assert_eq!(got.components_notes, o.components_notes);
    assert_eq!(got.components_required, o.components_required);
    assert_eq!(got.total_gap_components, o.total_gap_components);
    assert_eq!(got.components, o.components);
}

#[test]
fn round_trip_supplier_order() {
    let dir = tempfile::TempDir::new().unwrap();
    let mut db = open_fresh(&dir);
    let s = SuppliersOrders {
        supplier_id: "SUPP-001".to_string(),
        component_name: "Sapphire Crystal".to_string(),
        procurement_id: "PROC-001".to_string(),
        order_id: "SUPP-ORD-001".to_string(),
        total_components_required: 50,
        components_roundof: 50,
        status: "Pending".to_string(),
        order_date: sample_date(),
        expected_delivery_date: sample_date(),
    };
    db.create_supplier_order(&s).unwrap();
    let got = db.get_supplier_order("SUPP-ORD-001").unwrap().expect("present");
    assert_eq!(got.supplier_id, s.supplier_id);
    assert_eq!(got.component_name, s.component_name);
    assert_eq!(got.procurement_id, s.procurement_id);
    assert_eq!(got.order_id, s.order_id);
    assert_eq!(got.total_components_required, s.total_components_required);
    assert_eq!(got.components_roundof, s.components_roundof);
    assert_eq!(got.status, s.status);
    assert_eq!(got.order_date, s.order_date);
    assert_eq!(got.expected_delivery_date, s.expected_delivery_date);
}

#[test]
fn round_trip_procurements() {
    let dir = tempfile::TempDir::new().unwrap();
    let mut db = open_fresh(&dir);
    let g = Procurements {
        procurement_id: "PROC-GROUP-001".to_string(),
        order_id: "ORD-001".to_string(),
        procurements: vec![Procurement {
            procurement_id: "PROC-001".to_string(),
            order_id: "ORD-001".to_string(),
            components: Some(vec!["COMP-001".to_string()]),
            quantity: 20,
            status: "Pending".to_string(),
            product: "BP Watch".to_string(),
        }],
    };
    db.create_procurement(&g).unwrap();
    let got = db.get_procurement("PROC-GROUP-001").unwrap().expect("present");
    assert_eq!(got.procurement_id, g.procurement_id);
    assert_eq!(got.order_id, g.order_id);
    assert_eq!(got.procurements.len(), 1);
    assert_eq!(got.procurements[0].procurement_id, g.procurements[0].procurement_id);
    assert_eq!(got.procurements[0].order_id, g.procurements[0].order_id);
    assert_eq!(got.procurements[0].components, g.procurements[0].components);
    assert_eq!(got.procurements[0].quantity, g.procurements[0].quantity);
    assert_eq!(got.procurements[0].status, g.procurements[0].status);
    assert_eq!(got.procurements[0].product, g.procurements[0].product);
}

#[test]
fn round_trip_assembly_timeline() {
    let dir = tempfile::TempDir::new().unwrap();
    let mut db = open_fresh(&dir);
    let a = AssemblyTimeLine {
        assembly_id: "ASSEM-001".to_string(),
        order: "ORD-001".to_string(),
        product: "BP Watch".to_string(),
        movements: vec!["MOVE-001".to_string()],
        components_required: 100,
        total_components_booked: 80,
        components: vec!["COMP-001".to_string(), "COMP-002".to_string()],
        total_gap_components: Some(vec![20]),
        assembly_location: "Wurenlos".to_string(),
        components_received_date: sample_date(),
        assembly_start_date: sample_date(),
        assembly_end_date: sample_date(),
        assembly_status: "Scheduled".to_string(),
        total_duration: 5,
        assembly_notes: Some("Priority order".to_string()),
    };
    db.create_assembly_timeline(&a).unwrap();
    let got = db.get_assembly_timeline("ASSEM-001").unwrap().expect("present");
    assert_eq!(got.assembly_id, a.assembly_id);
    assert_eq!(got.order, a.order);
    assert_eq!(got.product, a.product);
    assert_eq!(got.movements, a.movements);
    assert_eq!(got.components_required, a.components_required);
    assert_eq!(got.total_components_booked, a.total_components_booked);
    assert_eq!(got.components, a.components);
    assert_eq!(got.total_gap_components, a.total_gap_components);
    assert_eq!(got.assembly_location, a.assembly_location);
    assert_eq!(got.components_received_date, a.components_received_date);
    assert_eq!(got.assembly_start_date, a.assembly_start_date);
    assert_eq!(got.assembly_end_date, a.assembly_end_date);
    assert_eq!(got.assembly_status, a.assembly_status);
    assert_eq!(got.total_duration, a.total_duration);
    assert_eq!(got.assembly_notes, a.assembly_notes);
}

#[test]
fn round_trip_production_rate() {
    let dir = tempfile::TempDir::new().unwrap();
    let mut db = open_fresh(&dir);
    let r = ProductionRate {
        prodction_rate_id: "RATE-001".to_string(),
        watch_model_id: "BP-2023".to_string(),
        assembly_time_per_watch: 30,
        daily_production_capacity: 40,
    };
    db.create_production_rate(&r).unwrap();
    let got = db.get_production_rate("RATE-001").unwrap().expect("present");
    assert_eq!(got.prodction_rate_id, r.prodction_rate_id);
    assert_eq!(got.watch_model_id, r.watch_model_id);
    assert_eq!(got.assembly_time_per_watch, r.assembly_time_per_watch);
    assert_eq!(got.daily_production_capacity, r.daily_production_capacity);
}

#[test]
fn round_trip_reorder_point() {
    let dir = tempfile::TempDir::new().unwrap();
    let mut db = open_fresh(&dir);
    let r = RecorderPoint {
        recorder_point_id: "REORD-001".to_string(),
        component_name: "Premium Dial".to_string(),
        supplier_lead_time: 14,
        assumed_daily_usage: 520,
        lead_time_demand: 7280,
        safety_stock: 3640,
        reorder_point: 110,
        need_to_order: true,
    };
    db.create_reorder_point(&r).unwrap();
    let got = db.get_reorder_point("REORD-001").unwrap().expect("present");
    assert_eq!(got.recorder_point_id, r.recorder_point_id);
    assert_eq!(got.component_name, r.component_name);
    assert_eq!(got.supplier_lead_time, r.supplier_lead_time);
    assert_eq!(got.assumed_daily_usage, r.assumed_daily_usage);
    assert_eq!(got.lead_time_demand, r.lead_time_demand);
    assert_eq!(got.safety_stock, r.safety_stock);
    assert_eq!(got.reorder_point, r.reorder_point);
    assert_eq!(got.need_to_order, r.need_to_order);
}

#[test]
fn round_trip_watch() {
    let dir = tempfile::TempDir::new().unwrap();
    let mut db = open_fresh(&dir);
    let w = Watches {
        watch_id: "WATCH-001".to_string(),
        watch_model_id: "BP-2023-001".to_string(),
        brand: "BrandX".to_string(),
        component_id: "COMP-001".to_string(),
        required_quantity: 1,
    };
    db.create_watch(&w).unwrap();
    let got = db.get_watch("WATCH-001").unwrap().expect("present");
    assert_eq!(got.watch_id, w.watch_id);
    assert_eq!(got.watch_model_id, w.watch_model_id);
    assert_eq!(got.brand, w.brand);
    assert_eq!(got.component_id, w.component_id);
    assert_eq!(got.required_quantity, w.required_quantity);
}

#[test]
fn round_trip_movement_record() {
    let dir = tempfile::TempDir::new().unwrap();
    let mut db = open_fresh(&dir);
    let m = sample_movement("MOVE-001", Some("COMP-404"), "CN", "Wurenlos", 10);
    db.record_movement(&m).unwrap();
    let got = db.get_movement("MOVE-001").unwrap().expect("present");
    assert_eq!(got.movement_id, m.movement_id);
    assert_eq!(got.transaction_id, m.transaction_id);
    assert_eq!(got.date, m.date);
    assert_eq!(got.movement_type, m.movement_type);
    assert_eq!(got.component_name, m.component_name);
    assert_eq!(got.product_name, m.product_name);
    assert_eq!(got.source_location, m.source_location);
    assert_eq!(got.destination_location, m.destination_location);
    assert_eq!(got.quantity, m.quantity);
    assert_eq!(got.notes, m.notes);
    assert_eq!(got.status, m.status);
    assert_eq!(got.supplier_order_id, m.supplier_order_id);
}

#[test]
fn delete_then_get() {
    let dir = tempfile::TempDir::new().unwrap();
    let mut db = open_fresh(&dir);
    db.create_product(&sample_product("PROD-001", 200)).unwrap();
    assert!(db.delete_product("PROD-001").unwrap());
    assert!(db.get_product("PROD-001").unwrap().is_none());
    assert!(!db.delete_product("PROD-001").unwrap());
    assert!(!db.delete_product("NEVER-EXISTED").unwrap());
}

#[test]
fn link_component_is_idempotent() {
    let dir = tempfile::TempDir::new().unwrap();
    let mut db = open_fresh(&dir);
    db.create_product(&sample_product("PROD-001", 200)).unwrap();
    db.add_component_to_product("PROD-001", "COMP-001").unwrap();
    db.add_component_to_product("PROD-001", "COMP-001").unwrap();
    let got = db.get_product("PROD-001").unwrap().expect("present");
    let comps = got.components.expect("list created");
    assert_eq!(comps, vec!["COMP-001".to_string()]);
}

#[test]
fn link_component_missing_product_is_noop() {
    let dir = tempfile::TempDir::new().unwrap();
    let mut db = open_fresh(&dir);
    db.add_component_to_product("PROD-404", "COMP-001").unwrap();
    assert!(db.get_product("PROD-404").unwrap().is_none());
}

#[test]
fn list_components_missing_and_empty_agree() {
    let dir = tempfile::TempDir::new().unwrap();
    let mut db = open_fresh(&dir);
    db.create_product(&sample_product("PROD-001", 200)).unwrap();
    let of_missing = db.get_product_components("PROD-404").unwrap();
    let of_empty = db.get_product_components("PROD-001").unwrap();
    assert!(of_missing.is_empty());
    assert!(of_empty.is_empty());
}

#[test]
fn list_components_resolves_linked_records() {
    let dir = tempfile::TempDir::new().unwrap();
    let mut db = open_fresh(&dir);
    db.create_product(&sample_product("PROD-001", 200)).unwrap();
    db.create_component(&sample_component("COMP-001", 40, 80)).unwrap();
    db.add_component_to_product("PROD-001", "COMP-001").unwrap();
    db.add_component_to_product("PROD-001", "COMP-MISSING").unwrap();
    let got = db.get_product_components("PROD-001").unwrap();
    assert_eq!(got.len(), 1);
    assert_eq!(got[0].component_id, "COMP-001");
}

#[test]
fn movement_scenario_adjusts_both_locations() {
    let dir = tempfile::TempDir::new().unwrap();
    let mut db = open_fresh(&dir);
    db.create_product(&sample_product("PROD-001", 200)).unwrap();
    db.create_component(&sample_component("COMP-001", 40, 80)).unwrap();
    let m = sample_movement("MOVE-001", Some("COMP-001"), "CN", "Wurenlos", 10);
    db.record_movement(&m).unwrap();
    let c = db.get_component("COMP-001").unwrap().expect("present");
    assert_eq!(c.cn, 30);
    assert_eq!(c.wurenlos, 90);
    assert_eq!(c.kling, 20);
    assert_eq!(c.st_jacob, 30);
    assert_eq!(c.flf, 60);
    assert_eq!(c.total_available, 245);
    assert_eq!(c.ordered_surplus, 2550);
    let got = db.get_movement("MOVE-001").unwrap().expect("present");
    assert_eq!(got.movement_id, m.movement_id);
    assert_eq!(got.quantity, 10);
    assert_eq!(got.source_location, "CN");
    assert_eq!(got.destination_location, "Wurenlos");
    let p = db.get_product("PROD-001").unwrap().expect("present");
    assert_eq!(p.wurenlos, 200);
}

#[test]
fn movement_missing_component_still_recorded() {
    let dir = tempfile::TempDir::new().unwrap();
    let mut db = open_fresh(&dir);
    let m = sample_movement("MOVE-001", Some("COMP-404"), "CN", "Wurenlos", 10);
    db.record_movement(&m).unwrap();
    assert!(db.get_movement("MOVE-001").unwrap().is_some());
    assert!(db.get_component("COMP-404").unwrap().is_none());
}

#[test]
fn movement_unrecognized_tag_leaves_that_side() {
    let dir = tempfile::TempDir::new().unwrap();
    let mut db = open_fresh(&dir);
    db.create_component(&sample_component("COMP-001", 40, 80)).unwrap();
    let m = sample_movement("MOVE-001", Some("COMP-001"), "Narnia", "Wurenlos", 10);
    db.record_movement(&m).unwrap();
    let c = db.get_component("COMP-001").unwrap().expect("present");
    assert_eq!(c.cn, 40);
    assert_eq!(c.wurenlos, 90);
}

#[test]
fn movement_insufficient_stock_is_refused_whole() {
    let dir = tempfile::TempDir::new().unwrap();
    let mut db = open_fresh(&dir);
    db.create_component(&sample_component("COMP-001", 40, 80)).unwrap();
    let m = sample_movement("MOVE-001", Some("COMP-001"), "CN", "Wurenlos", 41);
    let err = db.record_movement(&m).unwrap_err();
    assert!(matches!(err, StoreError::InsufficientStock));
    assert_eq!(err.message(), "source location holds less than the moved quantity");
    let c = db.get_component("COMP-001").unwrap().expect("present");
    assert_eq!(c.cn, 40);
    assert_eq!(c.wurenlos, 80);
    assert!(db.get_movement("MOVE-001").unwrap().is_none());
}

#[test]
fn movement_overflow_is_refused_whole() {
    let dir = tempfile::TempDir::new().unwrap();
    let mut db = open_fresh(&dir);
    let mut c = sample_component("COMP-001", 40, 80);
    c.wurenlos = u64::MAX;
    db.create_component(&c).unwrap();
    let m = sample_movement("MOVE-001", Some("COMP-001"), "CN", "Wurenlos", 10);
    let err = db.record_movement(&m).unwrap_err();
    assert!(matches!(err, StoreError::QuantityOverflow));
    let after = db.get_component("COMP-001").unwrap().expect("present");
    assert_eq!(after.cn, 40);
    assert_eq!(after.wurenlos, u64::MAX);
    assert!(db.get_movement("MOVE-001").unwrap().is_none());
}

#[test]
fn movement_same_location_nets_to_zero() {
    let dir = tempfile::TempDir::new().unwrap();
    let mut db = open_fresh(&dir);
    db.create_component(&sample_component("COMP-001", 40, 80)).unwrap();
    let m = sample_movement("MOVE-001", Some("COMP-001"), "CN", "CN", 10);
    db.record_movement(&m).unwrap();
    let c = db.get_component("COMP-001").unwrap().expect("present");
    assert_eq!(c.cn, 40);
}

#[test]
fn get_all_products_in_key_order() {
    let dir = tempfile::TempDir::new().unwrap();
    let mut db = open_fresh(&dir);
    db.create_product(&sample_product("PROD-B", 1)).unwrap();
    db.create_product(&sample_product("PROD-A", 2)).unwrap();
    db.create_product(&sample_product("PROD-C", 3)).unwrap();
    let all = db.get_all_products().unwrap();
    let ids: Vec<&str> = all.iter().map(|p| p.product_id.as_str()).collect();
    assert_eq!(ids, vec!["PROD-A", "PROD-B", "PROD-C"]);
}

#[test]
fn inventory_levels_by_location() {
    let dir = tempfile::TempDir::new().unwrap();
    let mut db = open_fresh(&dir);
    db.create_component(&sample_component("COMP-001", 40, 80)).unwrap();
    let mut other = sample_component("COMP-002", 35, 70);
    other.component_name = "Luminous Hands".to_string();
    db.create_component(&other).unwrap();
    let cn = db.get_inventory_levels("CN").unwrap();
    assert_eq!(cn.len(), 2);
    assert_eq!(cn[0], ("Premium Dial".to_string(), 40));
    assert_eq!(cn[1], ("Luminous Hands".to_string(), 35));
    let unknown = db.get_inventory_levels("Narnia").unwrap();
    assert_eq!(unknown[0].1, 0);
    assert_eq!(unknown[1].1, 0);
}

#[test]
fn create_is_upsert() {
    let dir = tempfile::TempDir::new().unwrap();
    let mut db = open_fresh(&dir);
    db.create_product(&sample_product("PROD-001", 200)).unwrap();
    let mut p2 = sample_product("PROD-001", 999);
    p2.product_name = "BP Watch Mk2".to_string();
    db.update_product(&p2).unwrap();
    let got = db.get_product("PROD-001").unwrap().expect("present");
    assert_eq!(got.wurenlos, 999);
    assert_eq!(got.product_name, "BP Watch Mk2");
    assert_eq!(db.get_all_products().unwrap().len(), 1);
}

#[test]
fn reopening_keeps_data() {
    let dir = tempfile::TempDir::new().unwrap();
    let mut db = open_fresh(&dir);
    db.create_product(&sample_product("PROD-001", 200)).unwrap();
    db.close();
    let db2 = InventoryDB::new(dir.path().to_str().unwrap()).expect("reopen");
    let got = db2.get_product("PROD-001").unwrap().expect("kept");
    assert_eq!(got.wurenlos, 200);
}

#[test]
fn second_open_of_live_store_is_refused() {
    let dir = tempfile::TempDir::new().unwrap();
    let db = open_fresh(&dir);
    let second = InventoryDB::new(dir.path().to_str().unwrap());
    assert!(matches!(second, Err(StoreError::Storage(_))));
    db.close();
    let third = InventoryDB::new(dir.path().to_str().unwrap());
    assert!(third.is_ok());
}

#[test]
fn open_on_missing_directory_fails_with_storage_error() {
    let err = match InventoryDB::new("/no/such/directory/for/inventory") {
        Ok(_) => panic!("open should fail on a missing directory"),
        Err(e) => e,
    };
    assert!(matches!(err, StoreError::Storage(_)));
    assert!(!err.message().is_empty());
}

#[test]
fn clear_all_empties_every_table() {
    let dir = tempfile::TempDir::new().unwrap();
    let mut db = open_fresh(&dir);
    db.create_product(&sample_product("PROD-001", 200)).unwrap();
    db.create_component(&sample_component("COMP-001", 40, 80)).unwrap();
    db.record_movement(&sample_movement("MOVE-001", None, "CN", "FLF", 1)).unwrap();
    db.clear_all().unwrap();
    assert!(db.get_all_products().unwrap().is_empty());
    assert!(db.get_all_components().unwrap().is_empty());
    assert!(db.get_all_movements().unwrap().is_empty());
}

#[test]
fn movement_conserves_between_kling_and_flf() {
    let dir = tempfile::TempDir::new().unwrap();
    let mut db = open_fresh(&dir);
    db.create_component(&sample_component("COMP-001", 40, 80)).unwrap();
    let m = sample_movement("MOVE-001", Some("COMP-001"), "Kling", "FLF", 7);
    db.record_movement(&m).unwrap();
    let c = db.get_component("COMP-001").unwrap().expect("present");
    assert_eq!(c.kling, 13);
    assert_eq!(c.flf, 67);
    assert_eq!(c.cn, 40);
    assert_eq!(c.wurenlos, 80);
}

#[test]
fn movements_are_listed_in_id_order() {
    let dir = tempfile::TempDir::new().unwrap();
    let mut db = open_fresh(&dir);
    db.record_movement(&sample_movement("MOVE-B", None, "CN", "FLF", 1)).unwrap();
    db.record_movement(&sample_movement("MOVE-A", None, "CN", "FLF", 2)).unwrap();
    let all = db.get_all_movements().unwrap();
    let ids: Vec<&str> = all.iter().map(|m| m.movement_id.as_str()).collect();
    assert_eq!(ids, vec!["MOVE-A", "MOVE-B"]);
}
