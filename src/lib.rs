//! Verified core of a terminal dashboard for browsing the resources of a
//! Kubernetes-style cluster API: the resource-name catalog, the column-width
//! computation of server-formatted tables, the tab/editing state machine and
//! the per-frame refresh decisions.
pub mod discovery;
pub mod table;
pub mod state;
pub mod refresh;
