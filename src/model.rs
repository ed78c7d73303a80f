pub mod sweeper;
