pub mod tasks;
