//! FlowLens core: traffic accounting, history planning, flow attribution,
//! software categorisation and the small text protocols the app speaks.

pub mod text;
pub mod vecmap;
pub mod sorting;
pub mod clock;
pub mod history;
pub mod port_map;
pub mod capture;
pub mod software;
pub mod embedded_assets_server;
pub mod ip_policy;
pub mod adapter_io;
pub mod commands;
