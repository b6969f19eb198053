//! Rutas cómodas: la elección de sección que acompaña a una ruta.
use vstd::prelude::*;

verus! {

/// Una sección recomendada dentro de una ruta.
#[derive(Debug, Clone)]
pub struct SectionChoice {
    pub codigo: String,
    pub seccion: String,
    pub horario: Vec<String>,
    pub profesor: Option<String>,
}

} // verus!
