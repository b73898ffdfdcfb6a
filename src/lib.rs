pub mod approval;
pub mod contract;
pub mod entries;
pub mod metadata;
pub mod mint;
pub mod royalty;
pub mod storage;
