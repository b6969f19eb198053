//! Planificador de horarios académicos: lectura de mallas curriculares,
//! oferta académica y porcentajes de aprobación, y construcción de la
//! lista de secciones candidatas (ruta crítica).
#![allow(non_snake_case)]

pub mod texto;
pub mod numeros;
pub mod models;
pub mod rutacritica;
pub mod excel;
pub mod SAP_parser;
pub mod api_json;
pub mod API_json;
pub mod rutacomoda;
pub mod xlsx;
