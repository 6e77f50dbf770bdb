//! Logic of the Windows app: its ignore list, the shapes sent to the web
//! frontend, project resolution from command lines, and the scan decisions.

pub mod ignore_store;
pub mod project_win;
pub mod scan;
pub mod dto;
pub mod actions;
