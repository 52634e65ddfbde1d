[package]
name = "prismswap"
version = "0.1.0"
edition = "2021"
publish = false

[dependencies]
bigint = "4"
cosmwasm-bignumber = "=2.2.0"
cosmwasm-std = "0.16"
cw-storage-plus = "0.8"
cw20 = "0.8"
integer-sqrt = "0.1"
serde = "1"
terra-cosmwasm = "2"
