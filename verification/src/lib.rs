//! Energy performance of buildings (ISO EN 52000-1, CTE DB-HE): the data model, its
//! plain text and XML formats, and the rules that complete, select and order energy
//! components and weighting factors, with their contracts.
//!
//! Energy values are generic: the text formats read and write each value as a text field,
//! and the numbers themselves are left to the caller.

pub mod components;
pub mod cte;
pub mod error;
pub mod misc;
pub mod number;
pub mod plain;
pub mod record;
pub mod text;
pub mod types;
pub mod wfactors;
pub mod xml;

pub use components::{Components, Pick};
pub use error::EpbdError;
pub use misc::MiscMap;
pub use plain::AsCtePlain;
pub use types::{
    BuildingNeeds, CSubtype, CType, Carrier, Dest, EAux, EOut, EProd, EUsed, Energy, Factor,
    FactorTexts, Meta, MetaVec, ProdSource, Service, Source, Step, SystemNeeds, ZoneNeeds,
};
pub use wfactors::{Factors, UserWF};
