pub mod debug;
pub mod dependency_tree;
pub mod fixtures;
pub mod http_inspector;
pub mod mode;
pub mod routing_debug;
pub mod shutdown_progress;
pub mod test_results;
pub mod testing;
pub mod themes;
