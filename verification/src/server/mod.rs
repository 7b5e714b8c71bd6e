//! The decisions of the webhook server: who may do what, which pushes trigger a
//! run, how requests are rate limited, and what is posted back to GitHub.
pub mod api;
pub mod dashboard;
pub mod github;
pub mod rbac;
pub mod webhook;
pub mod ratelimit;
