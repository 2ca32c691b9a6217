//! A terminal markdown viewer's core: markdown → styled text rendering,
//! colour schemes, link resolution, OKF bundle-root detection, and the
//! viewer's scroll / selection / navigation state machine.
//!
//! Everything here is pure logic over plain values; reading files, the
//! terminal and the environment happen in the viewer binary around it.

pub mod text;
pub mod chars;
pub mod wrap;
pub mod highlight;
pub mod scheme;
pub mod markdown;
pub mod paths;
pub mod links;
pub mod app;
pub mod bundle;
