pub mod factory;
pub mod he_net;
