//! Engine of a parallel test-plan runner: step definitions, the dependency
//! graph, the scheduler that admits steps in dependency order, the per-step
//! retry pipeline, filters and expectations, and the projection of outcomes
//! into result records.
pub mod bash;
pub mod cookies;
pub mod disk;
pub mod filter;
pub mod graph;
pub mod http;
pub mod junit;
pub mod matching;
pub mod number;
pub mod outputs;
pub mod pipeline;
pub mod runner;
pub mod step;
pub mod submitter;
pub mod text;
pub mod yaml;
