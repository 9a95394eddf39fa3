pub mod mocks;
