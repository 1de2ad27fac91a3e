//! The fitness subcommands and the recordings each one makes.
use vstd::prelude::*;

use crate::personal::ExerciseKind;

pub mod pullups;
pub mod pushups;
pub mod situps;

verus! {

/// A fitness subcommand as given on the command line.
#[derive(Debug, Clone)]
pub enum FitnessCommand {
    /// Record a push-up count for a date argument.
    Pushups { count: u32, date: String },
    /// Record a sit-up count for a date argument.
    Situps { count: u32, date: String },
    /// Record push-ups and sit-ups for today.
    Today { pushups: u32, situps: u32 },
    /// Record push-ups and sit-ups for yesterday.
    Yesterday { pushups: u32, situps: u32 },
}

/// One recording: the exercise, the count and the date argument.
pub type Step = (ExerciseKind, u32, String);

pub open spec fn steps_view(v: Seq<Step>) -> Seq<(ExerciseKind, u32, Seq<char>)> {
    v.map_values(|s: Step| (s.0, s.1, s.2@))
}

/// The recordings a subcommand makes, in the order they are made.
pub open spec fn steps_spec(cmd: FitnessCommand) -> Seq<(ExerciseKind, u32, Seq<char>)> {
    match cmd {
        FitnessCommand::Pushups { count, date } => seq![(ExerciseKind::Pushups, count, date@)],
        FitnessCommand::Situps { count, date } => seq![(ExerciseKind::Situps, count, date@)],
        FitnessCommand::Today { pushups, situps } => seq![
            (ExerciseKind::Pushups, pushups, "today"@),
            (ExerciseKind::Situps, situps, "today"@),
        ],
        FitnessCommand::Yesterday { pushups, situps } => seq![
            (ExerciseKind::Pushups, pushups, "yesterday"@),
            (ExerciseKind::Situps, situps, "yesterday"@),
        ],
    }
}

/// The recordings that `cmd` makes; they are carried out in order and the
/// first failure stops the rest.
pub fn steps(cmd: &FitnessCommand) -> (r: Vec<Step>)
    ensures
        steps_view(r@) == steps_spec(*cmd),
{
    let mut v: Vec<Step> = Vec::new();
    match cmd {
        FitnessCommand::Pushups { count, date } => {
            v.push((ExerciseKind::Pushups, *count, date.clone()));
        },
        FitnessCommand::Situps { count, date } => {
            v.push((ExerciseKind::Situps, *count, date.clone()));
        },
        FitnessCommand::Today { pushups, situps } => {
            v.push((ExerciseKind::Pushups, *pushups, "today".to_owned()));
            v.push((ExerciseKind::Situps, *situps, "today".to_owned()));
        },
        FitnessCommand::Yesterday { pushups, situps } => {
            v.push((ExerciseKind::Pushups, *pushups, "yesterday".to_owned()));
            v.push((ExerciseKind::Situps, *situps, "yesterday".to_owned()));
        },
    }
    assert(steps_view(v@) =~= steps_spec(*cmd));
    v
}

} // verus!
