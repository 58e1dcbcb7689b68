//! A fan-speed controller for an embedded controller (EC): the register
//! protocol, the control loop's decisions and the parsing of sensor text.

pub mod control;
pub mod driver;
pub mod ec;
pub mod readings;
