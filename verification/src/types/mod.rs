//! Types of the data model: carriers, services, sources, destinations, steps, metadata,
//! energy components, energy needs and weighting factors.

pub mod basic;
pub mod carrier;
pub mod common;
pub mod energy;
pub mod factor;
pub mod meta;
pub mod metavec;
pub mod needs;
pub mod prodsource;
pub mod service;
pub mod triple;

pub use basic::{CSubtype, CType};
pub use carrier::Carrier;
pub use common::{Dest, Source, Step};
pub use energy::{EAux, EOut, EProd, EUsed, Energy};
pub use factor::{Factor, FactorTexts};
pub use meta::Meta;
pub use metavec::MetaVec;
pub use needs::{BuildingNeeds, SystemNeeds, ZoneNeeds};
pub use prodsource::ProdSource;
pub use service::Service;
