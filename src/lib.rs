pub mod bitread;
pub mod entropy;
pub mod tables;
pub mod allocation;
pub mod celt;
