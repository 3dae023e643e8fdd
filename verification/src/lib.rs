//! Captura de ventas: reglas verificadas.

pub mod archivos;
pub mod biff;
pub mod captor;
pub mod captura;
pub mod capture_state;
pub mod config;
pub mod db;
pub mod diario;
pub mod fecha;
pub mod http;
pub mod libro;
pub mod lote;
pub mod mensajes;
pub mod models;
pub mod normalizer;
pub mod panel;
pub mod parser;
pub mod tabla;
pub mod texto;
pub mod uploader;
pub mod xls;
