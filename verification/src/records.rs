//! The record kinds the store persists, one struct per table, together with
//! their mathematical views.
//!
//! Identifiers are opaque strings chosen by the caller.  Quantities are
//! unsigned integers.  Fractional quantities (a component's ordered surplus,
//! a reorder point's usage figures) are kept in hundredths of a unit, so the
//! whole record is plain integer data.

use vstd::prelude::*;

verus! {

/// A calendar date, kept as plain year, month and day numbers.
#[derive(Clone, Copy, PartialEq, Eq, Structural, Debug)]
pub struct Date {
    pub year: u64,
    pub month: u64,
    pub day: u64,
}

/// A product: a sellable unit assembled from components it references by id.
#[derive(Clone, Debug)]
pub struct Products {
    pub product_name: String,
    pub product_id: String,
    /// Ids of the components this product is assembled from; kept free of
    /// duplicates by the linking operation, not by storage.
    pub components: Option<Vec<String>>,
    pub cn: u64,
    pub kling: u64,
    pub st_jacob: u64,
    pub wurenlos: u64,
    pub wurenlos_sold: u64,
    pub flf: u64,
    pub in_transit: u64,
    pub total_available: u64,
    pub reserver_for_orders: u64,
    pub waste: u64,
    pub customer: u64,
}

/// The mathematical value of a [`Products`] record.
pub struct ProductsV {
    pub product_name: Seq<char>,
    pub product_id: Seq<char>,
    pub components: Option<Seq<Seq<char>>>,
    pub cn: u64,
    pub kling: u64,
    pub st_jacob: u64,
    pub wurenlos: u64,
    pub wurenlos_sold: u64,
    pub flf: u64,
    pub in_transit: u64,
    pub total_available: u64,
    pub reserver_for_orders: u64,
    pub waste: u64,
    pub customer: u64,
}

impl View for Products {
    type V = ProductsV;

    open spec fn view(&self) -> ProductsV {
        ProductsV {
            product_name: self.product_name@,
            product_id: self.product_id@,
            components: self.components.deep_view(),
            cn: self.cn,
            kling: self.kling,
            st_jacob: self.st_jacob,
            wurenlos: self.wurenlos,
            wurenlos_sold: self.wurenlos_sold,
            flf: self.flf,
            in_transit: self.in_transit,
            total_available: self.total_available,
            reserver_for_orders: self.reserver_for_orders,
            waste: self.waste,
            customer: self.customer,
        }
    }
}

/// A component: a part of a product, with the same per-location quantities.
#[derive(Clone, Debug)]
pub struct Components {
    pub product_id: String,
    pub product_name: String,
    pub component_name: String,
    pub component_id: String,
    pub cn: u64,
    pub kling: u64,
    pub st_jacob: u64,
    pub wurenlos: u64,
    pub wurenlos_sold: u64,
    pub flf: u64,
    pub in_transit: u64,
    pub total_available: u64,
    /// Surplus on order, in hundredths of a unit.
    pub ordered_surplus: u64,
    pub reserver_for_orders: u64,
    pub waste: u64,
    pub customer: u64,
    pub assembly_line: u64,
}

/// The mathematical value of a [`Components`] record.
pub struct ComponentsV {
    pub product_id: Seq<char>,
    pub product_name: Seq<char>,
    pub component_name: Seq<char>,
    pub component_id: Seq<char>,
    pub cn: u64,
    pub kling: u64,
    pub st_jacob: u64,
    pub wurenlos: u64,
    pub wurenlos_sold: u64,
    pub flf: u64,
    pub in_transit: u64,
    pub total_available: u64,
    pub ordered_surplus: u64,
    pub reserver_for_orders: u64,
    pub waste: u64,
    pub customer: u64,
    pub assembly_line: u64,
}

impl View for Components {
    type V = ComponentsV;

    open spec fn view(&self) -> ComponentsV {
        ComponentsV {
            product_id: self.product_id@,
            product_name: self.product_name@,
            component_name: self.component_name@,
            component_id: self.component_id@,
            cn: self.cn,
            kling: self.kling,
            st_jacob: self.st_jacob,
            wurenlos: self.wurenlos,
            wurenlos_sold: self.wurenlos_sold,
            flf: self.flf,
            in_transit: self.in_transit,
            total_available: self.total_available,
            ordered_surplus: self.ordered_surplus,
            reserver_for_orders: self.reserver_for_orders,
            waste: self.waste,
            customer: self.customer,
            assembly_line: self.assembly_line,
        }
    }
}

/// A stock movement: one transfer of a quantity between two locations, kept
/// as an immutable audit record.
#[derive(Clone, Debug)]
pub struct Movements {
    pub movement_id: String,
    pub transaction_id: String,
    pub date: Date,
    pub movement_type: String,
    pub component_name: Option<String>,
    pub product_name: Option<String>,
    pub source_location: String,
    pub destination_location: String,
    pub quantity: u64,
    pub notes: Option<String>,
    pub status: String,
    pub supplier_order_id: Option<String>,
}

/// The mathematical value of a [`Movements`] record.
pub struct MovementsV {
    pub movement_id: Seq<char>,
    pub transaction_id: Seq<char>,
    pub date: Date,
    pub movement_type: Seq<char>,
    pub component_name: Option<Seq<char>>,
    pub product_name: Option<Seq<char>>,
    pub source_location: Seq<char>,
    pub destination_location: Seq<char>,
    pub quantity: u64,
    pub notes: Option<Seq<char>>,
    pub status: Seq<char>,
    pub supplier_order_id: Option<Seq<char>>,
}

impl View for Movements {
    type V = MovementsV;

    open spec fn view(&self) -> MovementsV {
        MovementsV {
            movement_id: self.movement_id@,
            transaction_id: self.transaction_id@,
            date: self.date,
            movement_type: self.movement_type@,
            component_name: self.component_name.deep_view(),
            product_name: self.product_name.deep_view(),
            source_location: self.source_location@,
            destination_location: self.destination_location@,
            quantity: self.quantity,
            notes: self.notes.deep_view(),
            status: self.status@,
            supplier_order_id: self.supplier_order_id.deep_view(),
        }
    }
}

/// An order placed with a supplier for components.
#[derive(Clone, Debug)]
pub struct SuppliersOrders {
    pub supplier_id: String,
    pub component_name: String,
    pub procurement_id: String,
    pub order_id: String,
    pub total_components_required: u64,
    pub components_roundof: u64,
    pub status: String,
    pub order_date: Date,
    pub expected_delivery_date: Date,
}

/// The mathematical value of a [`SuppliersOrders`] record.
pub struct SuppliersOrdersV {
    pub supplier_id: Seq<char>,
    pub component_name: Seq<char>,
    pub procurement_id: Seq<char>,
    pub order_id: Seq<char>,
    pub total_components_required: u64,
    pub components_roundof: u64,
    pub status: Seq<char>,
    pub order_date: Date,
    pub expected_delivery_date: Date,
}

impl View for SuppliersOrders {
    type V = SuppliersOrdersV;

    open spec fn view(&self) -> SuppliersOrdersV {
        SuppliersOrdersV {
            supplier_id: self.supplier_id@,
            component_name: self.component_name@,
            procurement_id: self.procurement_id@,
            order_id: self.order_id@,
            total_components_required: self.total_components_required,
            components_roundof: self.components_roundof,
            status: self.status@,
            order_date: self.order_date,
            expected_delivery_date: self.expected_delivery_date,
        }
    }
}

/// A customer order for a product.
#[derive(Clone, Debug)]
pub struct Orders {
    pub order_id: String,
    pub procurements: Option<Vec<String>>,
    pub supplier_orders: Option<Vec<String>>,
    pub quanity_ordered: u64,
    pub product_id: String,
    pub product: String,
    pub quantity_required: u64,
    pub expected_delivery_date: Date,
    pub production_start_date: Date,
    pub expected_ship_date: Date,
    pub recid: String,
    pub order_status: String,
    pub total_components_booked: u64,
    pub components_notes: Option<String>,
    pub components_required: u64,
    pub total_gap_components: Option<Vec<u64>>,
    pub components: Option<Vec<String>>,
}

/// The mathematical value of an [`Orders`] record.
pub struct OrdersV {
    pub order_id: Seq<char>,
    pub procurements: Option<Seq<Seq<char>>>,
    pub supplier_orders: Option<Seq<Seq<char>>>,
    pub quanity_ordered: u64,
    pub product_id: Seq<char>,
    pub product: Seq<char>,
    pub quantity_required: u64,
    pub expected_delivery_date: Date,
    pub production_start_date: Date,
    pub expected_ship_date: Date,
    pub recid: Seq<char>,
    pub order_status: Seq<char>,
    pub total_components_booked: u64,
    pub components_notes: Option<Seq<char>>,
    pub components_required: u64,
    pub total_gap_components: Option<Seq<u64>>,
    pub components: Option<Seq<Seq<char>>>,
}

impl View for Orders {
    type V = OrdersV;

    open spec fn view(&self) -> OrdersV {
        OrdersV {
            order_id: self.order_id@,
            procurements: self.procurements.deep_view(),
            supplier_orders: self.supplier_orders.deep_view(),
            quanity_ordered: self.quanity_ordered,
            product_id: self.product_id@,
            product: self.product@,
            quantity_required: self.quantity_required,
            expected_delivery_date: self.expected_delivery_date,
            production_start_date: self.production_start_date,
            expected_ship_date: self.expected_ship_date,
            recid: self.recid@,
            order_status: self.order_status@,
            total_components_booked: self.total_components_booked,
            components_notes: self.components_notes.deep_view(),
            components_required: self.components_required,
            total_gap_components: self.total_gap_components.deep_view(),
            components: self.components.deep_view(),
        }
    }
}

/// One procurement inside a procurement group.
#[derive(Clone, Debug)]
pub struct Procurement {
    pub procurement_id: String,
    pub order_id: String,
    pub components: Option<Vec<String>>,
    pub quantity: u64,
    pub status: String,
    pub product: String,
}

/// The mathematical value of a [`Procurement`] record.
pub struct ProcurementV {
    pub procurement_id: Seq<char>,
    pub order_id: Seq<char>,
    pub components: Option<Seq<Seq<char>>>,
    pub quantity: u64,
    pub status: Seq<char>,
    pub product: Seq<char>,
}

impl View for Procurement {
    type V = ProcurementV;

    open spec fn view(&self) -> ProcurementV {
        ProcurementV {
            procurement_id: self.procurement_id@,
            order_id: self.order_id@,
            components: self.components.deep_view(),
            quantity: self.quantity,
            status: self.status@,
            product: self.product@,
        }
    }
}

/// A procurement group: it owns its list of procurements outright.
#[derive(Clone, Debug)]
pub struct Procurements {
    pub procurement_id: String,
    pub order_id: String,
    pub procurements: Vec<Procurement>,
}

/// The mathematical value of a [`Procurements`] record.
pub struct ProcurementsV {
    pub procurement_id: Seq<char>,
    pub order_id: Seq<char>,
    pub procurements: Seq<ProcurementV>,
}

impl View for Procurements {
    type V = ProcurementsV;

    open spec fn view(&self) -> ProcurementsV {
        ProcurementsV {
            procurement_id: self.procurement_id@,
            order_id: self.order_id@,
            procurements: Seq::new(
                self.procurements@.len(),
                |k: int| self.procurements@[k]@,
            ),
        }
    }
}

/// An assembly timeline for one order.
#[derive(Clone, Debug)]
pub struct AssemblyTimeLine {
    pub assembly_id: String,
    pub order: String,
    pub product: String,
    pub movements: Vec<String>,
    pub components_required: u64,
    pub total_components_booked: u64,
    pub components: Vec<String>,
    pub total_gap_components: Option<Vec<u64>>,
    pub assembly_location: String,
    pub components_received_date: Date,
    pub assembly_start_date: Date,
    pub assembly_end_date: Date,
    pub assembly_status: String,
    pub total_duration: u64,
    pub assembly_notes: Option<String>,
}

/// The mathematical value of an [`AssemblyTimeLine`] record.
pub struct AssemblyTimeLineV {
    pub assembly_id: Seq<char>,
    pub order: Seq<char>,
    pub product: Seq<char>,
    pub movements: Seq<Seq<char>>,
    pub components_required: u64,
    pub total_components_booked: u64,
    pub components: Seq<Seq<char>>,
    pub total_gap_components: Option<Seq<u64>>,
    pub assembly_location: Seq<char>,
    pub components_received_date: Date,
    pub assembly_start_date: Date,
    pub assembly_end_date: Date,
    pub assembly_status: Seq<char>,
    pub total_duration: u64,
    pub assembly_notes: Option<Seq<char>>,
}

impl View for AssemblyTimeLine {
    type V = AssemblyTimeLineV;

    open spec fn view(&self) -> AssemblyTimeLineV {
        AssemblyTimeLineV {
            assembly_id: self.assembly_id@,
            order: self.order@,
            product: self.product@,
            movements: self.movements.deep_view(),
            components_required: self.components_required,
            total_components_booked: self.total_components_booked,
            components: self.components.deep_view(),
            total_gap_components: self.total_gap_components.deep_view(),
            assembly_location: self.assembly_location@,
            components_received_date: self.components_received_date,
            assembly_start_date: self.assembly_start_date,
            assembly_end_date: self.assembly_end_date,
            assembly_status: self.assembly_status@,
            total_duration: self.total_duration,
            assembly_notes: self.assembly_notes.deep_view(),
        }
    }
}

/// Reference data: how fast one watch model can be assembled.
#[derive(Clone, Debug)]
pub struct ProductionRate {
    pub prodction_rate_id: String,
    pub watch_model_id: String,
    pub assembly_time_per_watch: u64,
    pub daily_production_capacity: u64,
}

/// The mathematical value of a [`ProductionRate`] record.
pub struct ProductionRateV {
    pub prodction_rate_id: Seq<char>,
    pub watch_model_id: Seq<char>,
    pub assembly_time_per_watch: u64,
    pub daily_production_capacity: u64,
}

impl View for ProductionRate {
    type V = ProductionRateV;

    open spec fn view(&self) -> ProductionRateV {
        ProductionRateV {
            prodction_rate_id: self.prodction_rate_id@,
            watch_model_id: self.watch_model_id@,
            assembly_time_per_watch: self.assembly_time_per_watch,
            daily_production_capacity: self.daily_production_capacity,
        }
    }
}

/// A reorder threshold for one component.  The numeric fields are supplied
/// by the caller; the fractional ones are in hundredths of a unit.
#[derive(Clone, Debug)]
pub struct RecorderPoint {
    pub recorder_point_id: String,
    pub component_name: String,
    pub supplier_lead_time: u64,
    /// Assumed daily usage, in hundredths of a unit.
    pub assumed_daily_usage: u64,
    /// Demand over the lead time, in hundredths of a unit.
    pub lead_time_demand: u64,
    /// Safety stock, in hundredths of a unit.
    pub safety_stock: u64,
    pub reorder_point: u64,
    pub need_to_order: bool,
}

/// The mathematical value of a [`RecorderPoint`] record.
pub struct RecorderPointV {
    pub recorder_point_id: Seq<char>,
    pub component_name: Seq<char>,
    pub supplier_lead_time: u64,
    pub assumed_daily_usage: u64,
    pub lead_time_demand: u64,
    pub safety_stock: u64,
    pub reorder_point: u64,
    pub need_to_order: bool,
}

impl View for RecorderPoint {
    type V = RecorderPointV;

    open spec fn view(&self) -> RecorderPointV {
        RecorderPointV {
            recorder_point_id: self.recorder_point_id@,
            component_name: self.component_name@,
            supplier_lead_time: self.supplier_lead_time,
            assumed_daily_usage: self.assumed_daily_usage,
            lead_time_demand: self.lead_time_demand,
            safety_stock: self.safety_stock,
            reorder_point: self.reorder_point,
            need_to_order: self.need_to_order,
        }
    }
}

/// A watch model and the component it needs.
#[derive(Clone, Debug)]
pub struct Watches {
    pub watch_id: String,
    pub watch_model_id: String,
    pub brand: String,
    pub component_id: String,
    pub required_quantity: u64,
}

/// The mathematical value of a [`Watches`] record.
pub struct WatchesV {
    pub watch_id: Seq<char>,
    pub watch_model_id: Seq<char>,
    pub brand: Seq<char>,
    pub component_id: Seq<char>,
    pub required_quantity: u64,
}

impl View for Watches {
    type V = WatchesV;

    open spec fn view(&self) -> WatchesV {
        WatchesV {
            watch_id: self.watch_id@,
            watch_model_id: self.watch_model_id@,
            brand: self.brand@,
            component_id: self.component_id@,
            required_quantity: self.required_quantity,
        }
    }
}

/// The envelope in which results are handed to the request layer.
#[derive(Debug)]
pub struct ApiResponse<T> {
    pub success: bool,
    pub data: Option<T>,
    pub message: Option<String>,
}

impl<T> ApiResponse<T> {
    /// Wraps a value as a successful response.
    pub fn success(data: T) -> (r: ApiResponse<T>)
        ensures
            r.success == true,
            r.data == Some(data),
            r.message is None,
    {
        ApiResponse { success: true, data: Some(data), message: None }
    }

    /// Wraps an error description as a failed response.
    pub fn error(message: &str) -> (r: ApiResponse<String>)
        ensures
            r.success == false,
            r.data is None,
            r.message matches Some(m) && m@ == message@,
    {
        ApiResponse { success: false, data: None, message: Some(message.to_owned()) }
    }
}

} // verus!
