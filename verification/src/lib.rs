//! The boundary core of a schema-first messaging layer: the contract model, its self-checks,
//! payload validation, compatibility classification, delivery boundaries, stub drift checks,
//! and the pure decision logic of the command-line tools.
pub mod strs;
pub mod diag;
pub mod style;
pub mod doctor;
pub mod link;
pub mod init;
pub mod files;
pub mod gui;
pub mod model;
pub mod jsontext;
pub mod payload;
pub mod schema_check;
pub mod compat;
pub mod runtime;
pub mod stub;
pub mod stub_laws;
pub mod stubgen;
pub mod vitals;
pub mod doctor_lan;
pub mod tap;
pub mod endpoints;
pub mod ir;
