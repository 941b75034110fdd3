pub mod doctor;
pub mod integration;
