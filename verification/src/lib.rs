//! The core of a small mail-exchange server: the SMTP dialogue, the
//! accounts that mail is for, and the plan by which accepted mail reaches
//! their mailboxes.
//!
//! Nothing here touches a socket or a file. A connection is served by
//! handing each line it delivers to [`server::handle_line`], and a mail is
//! stored by carrying out what [`delivery::plan_delivery`] returns.

pub mod commands;
pub mod config;
pub mod credentials;
pub mod delivery;
pub mod ident;
pub mod mail;
pub mod reply;
pub mod server;
pub mod shared;
pub mod text;
