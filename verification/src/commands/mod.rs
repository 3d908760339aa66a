pub mod all_command;
pub mod command;
pub mod command_argument;
pub mod command_data;
pub mod command_handler;
pub mod reset_command;
pub mod hello_world_command;
pub mod set_command;
pub mod snake_command;
