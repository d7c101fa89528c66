use vstd::prelude::*;

verus! {

/// Tool handler for geometric algebra operations.
#[derive(Debug, Clone, Copy)]
pub struct GeometricToolHandler;

/// Tool handler for geometric product operations.
#[derive(Debug, Clone, Copy)]
pub struct GeometricProductHandler;

/// Tool handler for rotor rotation operations.
#[derive(Debug, Clone, Copy)]
pub struct RotorRotationHandler;

/// Tool handler for tropical matrix multiplication.
#[derive(Debug, Clone, Copy)]
pub struct TropicalMatrixHandler;

/// Tool handler for shortest path computation.
#[derive(Debug, Clone, Copy)]
pub struct ShortestPathHandler;

/// Tool handler for gradient computation.
#[derive(Debug, Clone, Copy)]
pub struct GradientHandler;

/// Tool handler for cellular automata evolution.
#[derive(Debug, Clone, Copy)]
pub struct CellularAutomataHandler;

/// Tool handler for Fisher information computation.
#[derive(Debug, Clone, Copy)]
pub struct FisherInformationHandler;

/// Tool handler for Cayley table lookups.
#[derive(Debug, Clone, Copy)]
pub struct CayleyTableHandler;

/// Tool handler for library documentation browsing.
#[derive(Debug, Clone, Copy)]
pub struct LibraryDocsHandler;

/// Tool handler for code analysis.
#[derive(Debug, Clone, Copy)]
pub struct CodeAnalysisHandler;

/// Tool handler for project scaffolding.
#[derive(Debug, Clone, Copy)]
pub struct ProjectScaffoldHandler;

/// Tool handler for code generation.
#[derive(Debug, Clone, Copy)]
pub struct CodeGenerationHandler;

/// Tool handler for pattern searching.
#[derive(Debug, Clone, Copy)]
pub struct PatternSearchHandler;

/// Tool handler for GPU batch computation; serves only when GPU
/// acceleration is enabled.
#[derive(Debug, Clone, Copy)]
pub struct GpuBatchHandler {
    gpu_enabled: bool,
}

impl GpuBatchHandler {
    /// Whether GPU acceleration is enabled.
    pub closed spec fn enabled(&self) -> bool {
        self.gpu_enabled
    }

    pub fn new(gpu_enabled: bool) -> (h: Self)
        ensures
            h.enabled() == gpu_enabled,
    {
        Self { gpu_enabled }
    }

    /// Admits a batch request when GPU acceleration is enabled, and refuses
    /// it with the reason otherwise.
    pub fn check_available(&self) -> (r: Result<(), String>)
        ensures
            r is Ok <==> self.enabled(),
            r matches Err(m) ==> m@ == "GPU acceleration not enabled"@,
    {
        if !self.gpu_enabled {
            return Err(String::from_str("GPU acceleration not enabled"));
        }
        Ok(())
    }
}

/// Identity of a tool server.
#[derive(Debug, Clone)]
pub struct ServerInfo {
    pub name: String,
    pub version: String,
    pub description: Option<String>,
    pub author: Option<String>,
    pub homepage: Option<String>,
}

} // verus!
