use vstd::prelude::*;
use crate::animations::animation_storage::AnimationStorage;
use crate::commands::command::Command;
use crate::map::ColorMap;

verus! {

/// What a command's handler works on: the command, the display and the
/// storage of the running animation.
pub struct CommandData<'d, 'a> {
    pub command: &'d Command<'d>,
    pub map: &'d mut ColorMap<'a>,
    pub animation_storage: &'d mut AnimationStorage,
}

impl<'d, 'a> CommandData<'d, 'a> {
    pub fn new(
        command: &'d Command<'d>,
        map: &'d mut ColorMap<'a>,
        animation_manager: &'d mut AnimationStorage,
    ) -> (data: Self)
        ensures
            data.command == command,
            *data.map == *old(map),
            *data.animation_storage == *old(animation_manager),
            *final(data.map) == *final(map),
            *final(data.animation_storage) == *final(animation_manager),
    {
        CommandData { command, map, animation_storage: animation_manager }
    }

    pub fn animation_storage(self) -> (storage: &'d mut AnimationStorage)
        ensures
            *storage == *old(self.animation_storage),
            *final(storage) == *final(self.animation_storage),
            *final(self.map) == *old(self.map),
    {
        self.animation_storage
    }

    pub fn command(self) -> (command: &'d Command<'d>)
        ensures
            command == self.command,
            *final(self.map) == *old(self.map),
            *final(self.animation_storage) == *old(self.animation_storage),
    {
        self.command
    }

    pub fn map(self) -> (map: &'d mut ColorMap<'a>)
        ensures
            *map == *old(self.map),
            *final(map) == *final(self.map),
            *final(self.animation_storage) == *old(self.animation_storage),
    {
        self.map
    }

    pub fn deconstruct_map(self) -> (parts: (&'d Command<'d>, &'d mut ColorMap<'a>))
        ensures
            parts.0 == self.command,
            *parts.1 == *old(self.map),
            *final(parts.1) == *final(self.map),
            *final(self.animation_storage) == *old(self.animation_storage),
    {
        (self.command, self.map)
    }

    pub fn deconstruct_animation(self) -> (parts: (&'d Command<'d>, &'d mut AnimationStorage))
        ensures
            parts.0 == self.command,
            *parts.1 == *old(self.animation_storage),
            *final(parts.1) == *final(self.animation_storage),
            *final(self.map) == *old(self.map),
    {
        (self.command, self.animation_storage)
    }

    pub fn deconstruct(self) -> (parts: (
        &'d Command<'d>,
        &'d mut ColorMap<'a>,
        &'d mut AnimationStorage,
    ))
        ensures
            parts.0 == self.command,
            *parts.1 == *old(self.map),
            *parts.2 == *old(self.animation_storage),
            *final(parts.1) == *final(self.map),
            *final(parts.2) == *final(self.animation_storage),
    {
        (self.command, self.map, self.animation_storage)
    }
}

} // verus!
