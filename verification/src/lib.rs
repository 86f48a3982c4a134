//! Planning core of a floor-plan generator.
//!
//! A floor plan is found by moving a set of sites inside a boundary polygon
//! until the cells they induce meet per-region target areas. This crate holds
//! what that search decides: how long it runs and at which pace, which cell
//! edges are walls between regions, how cells are grouped into regions, which
//! required adjacencies are met, which terms make up the loss, and what is
//! drawn for each cell. Tessellating, differentiating and stepping are left
//! to the caller.
pub mod adjacency;
pub mod areas;
pub mod assignment;
pub mod fault;
pub mod grouping;
pub mod loss_topo;
pub mod losses;
pub mod mesh;
pub mod paint;
pub mod plan;
pub mod schedule;
pub mod tensor;
pub mod walls;
