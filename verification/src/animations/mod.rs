pub mod animation;
pub mod animation_step;
pub mod fade;
pub mod snake_animation;
pub mod animation_storage;
pub mod animation_manager;
