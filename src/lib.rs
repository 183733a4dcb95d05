//! Core logic of an arena game where agents walk from a spawn cell to a goal
//! cell and back across a grid whose cells players can block with obstacles.
//!
//! The library builds a multi-layer navigation surface from the grid, keeps
//! the set of excluded cells, runs the agent lifecycle state machine, the
//! steering integrator, the spawner, the replanning and backoff policy, the
//! collision policy and the score. Positions are fixed-point integers; path
//! queries on the surface are made by the caller, which hands the answers
//! back to the replanning steps.

pub mod grid;
pub mod navmesh;
pub mod exclusion;
pub mod fixed;
pub mod timer;
pub mod agent;
pub mod spawner;
pub mod replan;
pub mod game;
pub mod progress;
