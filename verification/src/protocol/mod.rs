pub mod dyndns2;
