//! A signature-keyed cache of Cayley tables (structure-constant tensors of
//! Clifford algebras): signature validation, the table builder, a byte codec
//! with content checksums, an in-memory table store, a cache-aside lookup
//! service and a batch precomputation scheduler. Beside it stand the source
//! scanners of the library-documentation tools and the tool handler types.

mod clock;
pub mod codec;
pub mod handlers;
pub mod scan;
pub mod scheduler;
pub mod service;
pub mod signature;
pub mod store;
pub mod tensor;
pub mod text;

pub use codec::{checksum, decode, encode, to_hex};
pub use handlers::{
    CayleyTableHandler, CellularAutomataHandler, CodeAnalysisHandler, CodeGenerationHandler,
    FisherInformationHandler, GeometricProductHandler, GeometricToolHandler, GpuBatchHandler,
    GradientHandler, LibraryDocsHandler, PatternSearchHandler, ProjectScaffoldHandler,
    RotorRotationHandler, ServerInfo, ShortestPathHandler, TropicalMatrixHandler,
};
pub use scan::{
    extract_dependencies, extract_enum_name, extract_function_name, extract_module_docs,
    extract_public_items, extract_reexports, extract_struct_name, extract_workspace_members,
    generate_feature_deps,
};
pub use scheduler::{
    clear_precomputed_tables, get_precomputation_status, list_missing, precompute_essential_tables,
    schedule_order, PrecomputationStatus, PrecomputeSummary, PrecomputedSignatureEntry,
    PENDING_LIMIT,
};
pub use service::{get_cayley_table, verify_record, TableResponse, TableSource};
pub use signature::{validate_signature, CayleyError, Signature, MAX_DIMENSIONS};
pub use store::{CayleyTableRecord, TableStore, UsageStat};
pub use tensor::{compute_cayley_table_for_signature, compute_simple_product_index, CoefficientTensor};
