//! Drainage-network construction over an irregular tessellation: routing
//! an elevation field into an acyclic flow graph, accumulating upstream
//! drainage area in one topological pass, synthesizing smooth river
//! streams with a spatial collision query, persisting the drainage
//! records as text tokens, and deriving a flatness map from gradient
//! scores. All arithmetic is exact fixed-point; the contracts state each
//! result in full, and the structural laws — acyclicity, conservation of
//! area, width monotonicity, and the persistence round trip — are proved.

pub mod accum;
pub mod codec;
pub mod drainage;
pub mod field;
pub mod flatness;
pub mod graph;
pub mod numeric;
pub mod router;
pub mod stream;
pub mod sums;
