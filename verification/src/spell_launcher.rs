//! The launch configuration for a checker: which command to run, in
//! which compatibility mode, with which dictionary. Spawning the
//! process itself is left to the unverified shell around the library;
//! this module only decides what is spawned.

use vstd::prelude::*;

verus! {

/// Which member of the ispell family the checker speaks to; decides
/// the default command name.
#[derive(Debug, Clone, Copy, PartialEq, Eq)]
pub enum Mode {
    Ispell,
    Aspell,
    Hunspell,
}

/// A builder for a checker session. Collects the command name, the
/// compatibility mode and the dictionary; `command_line` then resolves
/// them into what the operating system is asked to run.
#[derive(Debug)]
pub struct SpellLauncher {
    /// The dictionary handed to the command with `-d`, if any.
    pub lang: Option<String>,
    /// An explicit command to run instead of the mode's default.
    pub command: Option<String>,
    /// The compatibility mode.
    pub mode: Mode,
}

impl SpellLauncher {
    /// The command name `command_line` resolves: the explicit command
    /// when one was set, the mode's default otherwise.
    pub open spec fn spec_command_name(self) -> Seq<char> {
        match self.command {
            Some(c) => c@,
            None => match self.mode {
                Mode::Ispell => "ispell"@,
                Mode::Aspell => "aspell"@,
                Mode::Hunspell => "hunspell"@,
            },
        }
    }

    /// The arguments `command_line` resolves: the protocol-enable flag
    /// `-a`, then `-d` and the dictionary when one was set.
    pub open spec fn spec_args(self) -> Seq<Seq<char>> {
        match self.lang {
            Some(l) => seq!["-a"@, "-d"@, l@],
            None => seq!["-a"@],
        }
    }

    /// Creates a launcher with default options: ispell mode, no
    /// explicit command, no dictionary.
    pub fn new() -> (r: SpellLauncher)
        ensures
            r.lang is None,
            r.command is None,
            r.mode == Mode::Ispell,
    {
        SpellLauncher { lang: None, command: None, mode: Mode::Ispell }
    }

    /// Sets the mode to aspell: `aspell` will run when no explicit
    /// command is set.
    pub fn aspell(self) -> (r: SpellLauncher)
        ensures
            r.mode == Mode::Aspell,
            r.lang == self.lang,
            r.command == self.command,
    {
        SpellLauncher { mode: Mode::Aspell, ..self }
    }

    /// Sets the mode to hunspell: `hunspell` will run when no explicit
    /// command is set.
    pub fn hunspell(self) -> (r: SpellLauncher)
        ensures
            r.mode == Mode::Hunspell,
            r.lang == self.lang,
            r.command == self.command,
    {
        SpellLauncher { mode: Mode::Hunspell, ..self }
    }

    /// Sets the name of the command to run; by default it is inferred
    /// from the mode.
    pub fn command(self, command: &str) -> (r: SpellLauncher)
        ensures
            r.command matches Some(c) && c@ == command@,
            r.lang == self.lang,
            r.mode == self.mode,
    {
        SpellLauncher { command: Some(command.to_owned()), ..self }
    }

    /// Sets the dictionary the command must use. The family members
    /// name dictionaries differently: `ispell` takes full names such
    /// as `british`, `hunspell` takes language codes such as `en_GB`,
    /// and `aspell` accepts both.
    pub fn dictionary(self, lang: &str) -> (r: SpellLauncher)
        ensures
            r.lang matches Some(l) && l@ == lang@,
            r.command == self.command,
            r.mode == self.mode,
    {
        SpellLauncher { lang: Some(lang.to_owned()), ..self }
    }

    /// Resolves the configuration into the command name and argument
    /// list to spawn: the explicit command or the mode's default, the
    /// protocol-enable flag `-a`, and `-d <dictionary>` when one is
    /// set.
    pub fn command_line(&self) -> (r: (String, Vec<String>))
        ensures
            r.0@ == self.spec_command_name(),
            r.1.deep_view() == self.spec_args(),
    {
        let name: String = match &self.command {
            Some(c) => c.clone(),
            None => match self.mode {
                Mode::Ispell => String::from_str("ispell"),
                Mode::Aspell => String::from_str("aspell"),
                Mode::Hunspell => String::from_str("hunspell"),
            },
        };
        let mut args: Vec<String> = Vec::new();
        args.push(String::from_str("-a"));
        match &self.lang {
            Some(l) => {
                args.push(String::from_str("-d"));
                args.push(l.clone());
            },
            None => {},
        }
        proof {
            assert(args.deep_view() =~= self.spec_args());
        }
        (name, args)
    }
}

} // verus!
