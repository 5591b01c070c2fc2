//! Renders a SAS fabric topology (initiators, ports, expanders and targets)
//! as a layered diagram: a model of the topology built from parsed records,
//! rank assignment from the initiators, a grid layout, the scene of boxes and
//! connectors, and the svg document that draws it.

pub mod draw;
pub mod error;
pub mod instance;
pub mod layout;
pub mod model;
pub mod pipeline;
pub mod rank;
pub mod record;
pub mod scene;
pub mod text;
