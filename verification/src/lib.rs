//! A strict search index over invoices: records are kept one per name, in
//! ascending order of their names, and are looked up by exact name together
//! with a version requirement.

pub mod invoice;
pub mod names;
pub mod search;
pub mod store;
pub mod version;

pub use invoice::{
    BindleSpec, BindleSpecView, Invoice, InvoiceView, Label, LabelView, Parcel, ParcelView,
};
