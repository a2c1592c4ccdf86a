[package]
name = "dicom_reader"
version = "0.1.0"
edition = "2021"
publish = false

[dependencies]
arrow = "*"
dicom = "*"
dicom-pixeldata = "*"
walkdir = "*"
