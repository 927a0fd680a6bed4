//! Decision-making core for autonomous agents: a fact store with sensors, a
//! goal catalog, a regression planner over boolean facts, a target queue,
//! a grid A* pathfinder and the per-agent controller that ties them together.
pub mod facts;
pub mod goal;
pub mod action;
pub mod planner;
pub mod point;
pub mod astar;
pub mod target;
pub mod sensors;
pub mod controller;
pub mod components;
pub mod tiles;
pub mod ui;
pub mod debug;
pub mod util;
