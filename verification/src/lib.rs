pub mod extensions;
pub mod filesystem;
pub mod orchestrator;
pub mod paths;
pub mod promote;
pub mod provider;
pub mod results;
pub mod validate;
