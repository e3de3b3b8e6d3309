//! Verified core of the WorkBuddy check-in and OAuth loopback commands: the text
//! handling of scheduled-task exports, the script argument lists, the report
//! messages, and the small state machines that the command layer drives.

pub mod text;
pub mod decimal;
pub mod task_xml;
pub mod setting_laws;
pub mod task_list;
pub mod schedule;
pub mod schtasks_args;
pub mod register_round;
pub mod script_args;
pub mod reports;
pub mod results;
pub mod loopback;
pub mod proxy_pause;
