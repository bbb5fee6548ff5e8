//! Call-trace recording for a bytecode VM, and resolution of the recorded
//! frames to the source locations they were called from.

pub mod api;
pub mod call_trace;
pub mod codec;
pub mod config;
pub mod endpoints;
pub mod external;
pub mod gas;
pub mod line_col;
pub mod module_id;
pub mod resolve;
pub mod source_map;
pub mod tracer;

pub use api::CallTrace;
pub use call_trace::{
    CallTraceError, CallTraces, CapacityError, FrameError, InternalCallTrace, CALL_STACK_SIZE_LIMIT,
};
pub use codec::{decode, MalformedError};
pub use config::DebuggerServerConfig;
pub use endpoints::parse_endpoint_map;
pub use gas::GasInfo;
pub use line_col::{to_line_col, LineIndex, Position, Range};
pub use resolve::{locate_hex, locate_in_source, locate_zipped};
pub use source_map::{ByteSpan, CodeMapping, FunctionSourceMap, NotFoundError, SourceMapTable};
pub use tracer::{
    index_compile_response, package_names, resolve_root, trim_hash_prefix, CallTraceWithSource,
    Location, ModuleCompilation, ModuleIndex, ModuleMetadata, PackageCompilation, PackageMetadata,
    PackageRegistry,
};
