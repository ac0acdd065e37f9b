//! Verified core of the Intune Manager: the logic behind browsing, exporting,
//! importing, copying, comparing and documenting Intune objects through
//! Microsoft Graph, with the HTTP exchanges left to the host.

pub mod auth;
pub mod backend;
pub mod catalog;
pub mod compare;
pub mod documentation;
pub mod error;
pub mod graph;
pub mod json;
pub mod labels;
pub mod order;
pub mod text;
pub mod token_store;

pub use backend::{
    BulkCompareItem, BulkCompareResult, BulkExportResult, BulkImportItem, BulkImportResult, CopyBatchResult, CopyResult,
    DocExportResult, DocExportedFile, DocFormat, ExportResult, ExportedFile, ImportResult, ListItem, ListResult, ObjectDetail,
};
