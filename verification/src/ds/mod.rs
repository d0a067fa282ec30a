pub mod locked_queue;
