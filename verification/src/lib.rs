pub mod balance;
pub mod clock;
pub mod coding;
pub mod fetch;
pub mod island;
pub mod keyed;
pub mod memo;
pub mod panel;
pub mod text;
pub mod windowing;
pub mod tasks;
pub mod storage;
