pub mod auth;
pub mod data;
pub mod ehlo;
pub mod mail;
pub mod quit;
pub mod rcpt;
pub mod starttls;
