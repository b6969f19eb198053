//! Parámetros de una consulta al planificador, sin elección de malla.
use vstd::prelude::*;

verus! {

/// Lo que pide un alumno: su correo, los ramos que ya aprobó, los que
/// quiere priorizar y sus horarios preferidos.
#[derive(Debug, Clone)]
pub struct InputParams {
    pub email: String,
    pub ramos_pasados: Vec<String>,
    pub ramos_prioritarios: Vec<String>,
    pub horarios_preferidos: Vec<String>,
}

} // verus!
