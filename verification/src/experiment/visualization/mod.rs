pub mod scenario;
