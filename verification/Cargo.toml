[package]
name = "coharvest_bid_pool"
version = "0.1.0"
edition = "2021"
publish = false

[dependencies]
cosmwasm-std = "1.5"
cosmwasm-schema = "1.5"
cw20 = "1"
cw-storage-plus = "1"
cw-utils = "1"
oraiswap = "*"
thiserror = "1"
