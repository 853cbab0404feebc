[package]
name = "getpanics"
version = "0.1.0"
edition = "2021"
publish = false

[dependencies]
ra_ap_ide = "=0.0.240"
ra_ap_load-cargo = "=0.0.240"
ra_ap_paths = "=0.0.240"
ra_ap_project_model = "=0.0.240"
ra_ap_syntax = "=0.0.240"
ra_ap_vfs = "=0.0.240"
