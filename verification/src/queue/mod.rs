pub mod priority_queue;
