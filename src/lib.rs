//! Row-partitioned dense matrix multiplication: the partitioner that splits
//! the rows of a product among workers, the per-worker kernel, the merge of
//! the partial blocks, and a verified sequential composition of the three.

pub mod partition;
pub mod kernel;
pub mod aggregate;
pub mod multiply;
pub mod generate;
