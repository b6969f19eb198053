//! Ruta crítica: a partir de la malla, la oferta académica y los ramos
//! aprobados, arma la lista de secciones que el alumno puede tomar.
pub mod extract;
