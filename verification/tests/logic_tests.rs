use inventory_store::codec::{dec_fields, enc_fields, Field};
use inventory_store::movement::{
    level_of, link_component, move_component, parse_location, str_eq, Location, MovementFault,
};
use inventory_store::record_codec::{dec_movements, dec_products, enc_movements, enc_products};
use inventory_store::records::{ApiResponse, Date, Movements, Products};

fn product(id: &str) -> Products {
    Products {
        product_name: "Gérard's Wätch".to_string(),
        product_id: id.to_string(),
        components: Some(vec!["COMP-001".to_string()]),
        cn: 1,
        kling: 2,
        st_jacob: 3,
        wurenlos: 4,
        wurenlos_sold: 5,
        flf: 6,
        in_transit: 7,
        total_available: 8,
        reserver_for_orders: 9,
        waste: 10,
        customer: 11,
    }
}

fn component() -> inventory_store::records::Components {
    inventory_store::records::Components {
        product_id: "PROD-001".to_string(),
        product_name: "BP Watch".to_string(),
        component_name: "Premium Dial".to_string(),
        component_id: "COMP-001".to_string(),
        cn: 40,
        kling: 20,
        st_jacob: 30,
        wurenlos: 80,
        wurenlos_sold: 10,
        flf: 60,
        in_transit: 15,
        total_available: 245,
        ordered_surplus: 2550,
        reserver_for_orders: 60,
        waste: 2,
        customer: 0,
        assembly_line: 0,
    }
}

#[test]
fn codec_round_trip_preserves_product() {
    let p = product("PROD-αβγ");
    let bytes = enc_products(&p);
    let got = dec_products(&bytes).expect("decodes");
    assert_eq!(got.product_name, p.product_name);
    assert_eq!(got.product_id, p.product_id);
    assert_eq!(got.components, p.components);
    assert_eq!(got.customer, p.customer);
}

#[test]
fn codec_rejects_garbage() {
    assert!(dec_products(&vec![]).is_none());
    assert!(dec_products(&vec![255u8, 1, 2, 3]).is_none());
    let p = product("PROD-001");
    let mut bytes = enc_products(&p);
    bytes.pop();
    assert!(dec_products(&bytes).is_none());
}

#[test]
fn codec_distinguishes_record_shapes() {
    let m = Movements {
        movement_id: "MOVE-001".to_string(),
        transaction_id: "T".to_string(),
        date: Date { year: 2023, month: 5, day: 15 },
        movement_type: "Component".to_string(),
        component_name: None,
        product_name: None,
        source_location: "CN".to_string(),
        destination_location: "FLF".to_string(),
        quantity: 10,
        notes: None,
        status: "Completed".to_string(),
        supplier_order_id: None,
    };
    let bytes = enc_movements(&m);
    assert!(dec_movements(&bytes).is_some());
    assert!(dec_products(&bytes).is_none());
}

#[test]
fn field_codec_round_trips_every_shape() {
    let fields = vec![
        Field::U64(0),
        Field::U64(u64::MAX),
        Field::B(true),
        Field::B(false),
        Field::S("héllo wörld".to_string()),
        Field::S(String::new()),
        Field::OptS(None),
        Field::OptS(Some("note".to_string())),
        Field::SList(vec!["a".to_string(), "b".to_string()]),
        Field::OptSList(None),
        Field::OptSList(Some(vec![])),
        Field::OptU64List(Some(vec![20, 30])),
        Field::BytesList(vec![vec![0, 1, 2], vec![]]),
    ];
    let bytes = enc_fields(&fields);
    let got = dec_fields(&bytes).expect("decodes");
    assert_eq!(got.len(), fields.len());
    assert!(matches!(&got[4], Field::S(s) if s == "héllo wörld"));
    assert!(matches!(&got[11], Field::OptU64List(Some(l)) if l == &vec![20, 30]));
}

#[test]
fn parse_location_recognizes_the_five_tags() {
    assert_eq!(parse_location("CN"), Some(Location::Cn));
    assert_eq!(parse_location("Kling"), Some(Location::Kling));
    assert_eq!(parse_location("St Jakob"), Some(Location::StJakob));
    assert_eq!(parse_location("Wurenlos"), Some(Location::Wurenlos));
    assert_eq!(parse_location("FLF"), Some(Location::Flf));
    assert_eq!(parse_location("cn"), None);
    assert_eq!(parse_location(""), None);
}

#[test]
fn str_eq_compares_contents() {
    assert!(str_eq("abc", "abc"));
    assert!(!str_eq("abc", "abd"));
    assert!(!str_eq("abc", "ab"));
    assert!(str_eq("", ""));
    assert!(str_eq("ünïcode", "ünïcode"));
}

#[test]
fn move_component_moves_exactly_q() {
    let c = component();
    let c2 = move_component(&c, "CN", "Wurenlos", 10).expect("fits");
    assert_eq!(c2.cn, 30);
    assert_eq!(c2.wurenlos, 90);
    assert_eq!(c2.kling, c.kling);
    assert_eq!(c2.component_id, c.component_id);
}

#[test]
fn move_component_refuses_underflow_and_overflow() {
    let c = component();
    assert!(matches!(
        move_component(&c, "CN", "Wurenlos", 41),
        Err(MovementFault::InsufficientStock)
    ));
    let mut full = component();
    full.wurenlos = u64::MAX;
    assert!(matches!(
        move_component(&full, "CN", "Wurenlos", 1),
        Err(MovementFault::QuantityOverflow)
    ));
}

#[test]
fn level_of_reads_location_counts() {
    let c = component();
    assert_eq!(level_of(&c, "CN"), 40);
    assert_eq!(level_of(&c, "Wurenlos"), 80);
    assert_eq!(level_of(&c, "nowhere"), 0);
}

#[test]
fn link_component_record_level() {
    let mut p = product("PROD-001");
    p.components = None;
    let p1 = link_component(&p, "COMP-009");
    assert_eq!(p1.components, Some(vec!["COMP-009".to_string()]));
    let p2 = link_component(&p1, "COMP-009");
    assert_eq!(p2.components, Some(vec!["COMP-009".to_string()]));
    let p3 = link_component(&p2, "COMP-010");
    assert_eq!(
        p3.components,
        Some(vec!["COMP-009".to_string(), "COMP-010".to_string()])
    );
}

#[test]
fn api_response_wraps_success_and_error() {
    let ok = ApiResponse::success(41u64);
    assert!(ok.success);
    assert_eq!(ok.data, Some(41));
    assert!(ok.message.is_none());
    let err = ApiResponse::<u64>::error("not found");
    assert!(!err.success);
    assert!(err.data.is_none());
    assert_eq!(err.message.as_deref(), Some("not found"));
}
