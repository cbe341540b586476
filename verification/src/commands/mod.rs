pub mod install;
pub mod use_cmd;
pub mod xdebug;
pub mod prune;
pub mod init;
pub mod env;
pub mod ls;
pub mod ls_remote;
pub mod uninstall;
pub mod default_cmd;
pub mod which_cmd;
pub mod exec_cmd;
pub mod cache;
pub mod current;
pub mod self_update;
