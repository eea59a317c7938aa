//! The interactive setup: a state machine that, answer by answer, decides
//! the next question and builds the settings of a run. The caller asks the
//! questions and checks the input directory; the machine decides.

use vstd::prelude::*;
use crate::cli::{clamp_quality, effective_quality};
use crate::textparse::{
    all_digits, decimal_value, is_digit, lemma_parse_reads_digits, parse_unsigned, spec_parse_unsigned,
};

verus! {

/// A question of the interactive setup.
#[derive(PartialEq, Eq, Structural, Clone, Copy, Debug)]
pub enum Prompt {
    InputDir,
    OutputDir,
    Recursive,
    InPlace,
    ConvertWebp,
    Quality,
    LimitWidth,
    MaxWidth,
    Cleanup,
    Start,
}

/// Why the interactive setup ends without settings.
#[derive(PartialEq, Eq, Structural, Clone, Copy, Debug)]
pub enum WizardError {
    /// The input directory does not exist.
    MissingDirectory,
    /// The user declined to start.
    Cancelled,
}

/// Where the setup stands: which answer it waits for, or how it ended.
#[derive(PartialEq, Eq, Structural, Clone, Copy, Debug)]
pub enum Stage {
    InputDir,
    InputCheck,
    OutputDir,
    Recursive,
    InPlace,
    Convert,
    Quality,
    LimitWidth,
    MaxWidth,
    Cleanup,
    Start,
    Done,
    Failed(WizardError),
}

/// What the caller does next.
#[derive(PartialEq, Eq, Structural, Clone, Copy, Debug)]
pub enum Action {
    /// Ask for a text; its default is `text_default` of the prompt.
    AskText(Prompt),
    /// Ask a yes/no question with the given default.
    AskYesNo(Prompt, bool),
    /// Check whether the input directory exists.
    CheckInputExists,
    /// The settings are complete.
    Finish,
    /// The setup ends with an error.
    Fail(WizardError),
}

/// What the caller hands back.
#[derive(Debug)]
pub enum Answer {
    Text(String),
    YesNo(bool),
    InputExists(bool),
}

/// The mathematical view of an [`Answer`].
pub enum AnswerModel {
    Text(Seq<char>),
    YesNo(bool),
    InputExists(bool),
}

impl View for Answer {
    type V = AnswerModel;

    open spec fn view(&self) -> AnswerModel {
        match self {
            Answer::Text(t) => AnswerModel::Text(t@),
            Answer::YesNo(b) => AnswerModel::YesNo(*b),
            Answer::InputExists(b) => AnswerModel::InputExists(*b),
        }
    }
}

/// The state of the interactive setup, with the settings gathered so far.
#[derive(Debug)]
pub struct Wizard {
    pub stage: Stage,
    pub input: String,
    pub output: String,
    pub recursive: bool,
    pub in_place: bool,
    pub skip_webp: bool,
    pub quality: u8,
    pub max_width: u32,
    pub cleanup: bool,
}

/// The mathematical view of a [`Wizard`].
pub struct WizardModel {
    pub stage: Stage,
    pub input: Seq<char>,
    pub output: Seq<char>,
    pub recursive: bool,
    pub in_place: bool,
    pub skip_webp: bool,
    pub quality: u8,
    pub max_width: u32,
    pub cleanup: bool,
}

impl View for Wizard {
    type V = WizardModel;

    open spec fn view(&self) -> WizardModel {
        WizardModel {
            stage: self.stage,
            input: self.input@,
            output: self.output@,
            recursive: self.recursive,
            in_place: self.in_place,
            skip_webp: self.skip_webp,
            quality: self.quality,
            max_width: self.max_width,
            cleanup: self.cleanup,
        }
    }
}

/// The action that belongs to a stage: the question it waits for, the
/// directory check, or the end.
pub open spec fn action_for(stage: Stage) -> Action {
    match stage {
        Stage::InputDir => Action::AskText(Prompt::InputDir),
        Stage::InputCheck => Action::CheckInputExists,
        Stage::OutputDir => Action::AskText(Prompt::OutputDir),
        Stage::Recursive => Action::AskYesNo(Prompt::Recursive, false),
        Stage::InPlace => Action::AskYesNo(Prompt::InPlace, false),
        Stage::Convert => Action::AskYesNo(Prompt::ConvertWebp, true),
        Stage::Quality => Action::AskText(Prompt::Quality),
        Stage::LimitWidth => Action::AskYesNo(Prompt::LimitWidth, false),
        Stage::MaxWidth => Action::AskText(Prompt::MaxWidth),
        Stage::Cleanup => Action::AskYesNo(Prompt::Cleanup, false),
        Stage::Start => Action::AskYesNo(Prompt::Start, true),
        Stage::Done => Action::Finish,
        Stage::Failed(e) => Action::Fail(e),
    }
}

/// The default answer of a text prompt.
pub open spec fn spec_text_default(p: Prompt) -> Seq<char> {
    match p {
        Prompt::InputDir => "./photos"@,
        Prompt::OutputDir => "./dist"@,
        Prompt::Quality => "80"@,
        Prompt::MaxWidth => "2048"@,
        _ => ""@,
    }
}

/// The quality read from the answer (80 when it is not a number from 0 to
/// 255), brought into 1..=100 as on the command line.
pub open spec fn quality_from(t: Seq<char>) -> u8 {
    clamp_quality(
        match spec_parse_unsigned(t, 255) {
            Some(v) => v as u8,
            None => 80,
        },
    )
}

/// The width limit read from the answer, 2048 when it is not a `u32`.
pub open spec fn width_from(t: Seq<char>) -> u32 {
    match spec_parse_unsigned(t, u32::MAX as nat) {
        Some(v) => v as u32,
        None => 2048,
    }
}

/// The state at the start: waiting for the input directory, with the
/// defaults of the settings that later answers may skip.
pub open spec fn initial_model() -> WizardModel {
    WizardModel {
        stage: Stage::InputDir,
        input: Seq::empty(),
        output: Seq::empty(),
        recursive: false,
        in_place: false,
        skip_webp: false,
        quality: 80,
        max_width: 0,
        cleanup: false,
    }
}

/// One step of the setup: the state after answer `a` in state `w`. An
/// answer of the wrong kind, or any answer once the setup has ended, leaves
/// the state as it is (so the same question is asked again).
pub open spec fn next_model(w: WizardModel, a: AnswerModel) -> WizardModel {
    match (w.stage, a) {
        (Stage::InputDir, AnswerModel::Text(t)) => WizardModel { stage: Stage::InputCheck, input: t, ..w },
        (Stage::InputCheck, AnswerModel::InputExists(e)) => if e {
            WizardModel { stage: Stage::OutputDir, ..w }
        } else {
            WizardModel { stage: Stage::Failed(WizardError::MissingDirectory), ..w }
        },
        (Stage::OutputDir, AnswerModel::Text(t)) => WizardModel { stage: Stage::Recursive, output: t, ..w },
        (Stage::Recursive, AnswerModel::YesNo(b)) => WizardModel { stage: Stage::InPlace, recursive: b, ..w },
        (Stage::InPlace, AnswerModel::YesNo(b)) => WizardModel { stage: Stage::Convert, in_place: b, ..w },
        (Stage::Convert, AnswerModel::YesNo(b)) => if b {
            WizardModel { stage: Stage::Quality, skip_webp: false, ..w }
        } else {
            WizardModel {
                stage: Stage::Start,
                skip_webp: true,
                quality: 80,
                max_width: 0,
                cleanup: false,
                ..w
            }
        },
        (Stage::Quality, AnswerModel::Text(t)) => WizardModel {
            stage: Stage::LimitWidth,
            quality: quality_from(t),
            ..w
        },
        (Stage::LimitWidth, AnswerModel::YesNo(b)) => if b {
            WizardModel { stage: Stage::MaxWidth, ..w }
        } else {
            WizardModel { stage: Stage::Cleanup, max_width: 0, ..w }
        },
        (Stage::MaxWidth, AnswerModel::Text(t)) => WizardModel {
            stage: Stage::Cleanup,
            max_width: width_from(t),
            ..w
        },
        (Stage::Cleanup, AnswerModel::YesNo(b)) => WizardModel { stage: Stage::Start, cleanup: b, ..w },
        (Stage::Start, AnswerModel::YesNo(b)) => if b {
            WizardModel { stage: Stage::Done, ..w }
        } else {
            WizardModel { stage: Stage::Failed(WizardError::Cancelled), ..w }
        },
        _ => w,
    }
}

/// The default answer of a text prompt.
pub fn text_default(p: Prompt) -> (r: &'static str)
    ensures
        r@ == spec_text_default(p),
{
    match p {
        Prompt::InputDir => "./photos",
        Prompt::OutputDir => "./dist",
        Prompt::Quality => "80",
        Prompt::MaxWidth => "2048",
        _ => "",
    }
}

fn action_of(stage: Stage) -> (r: Action)
    ensures
        r == action_for(stage),
{
    match stage {
        Stage::InputDir => Action::AskText(Prompt::InputDir),
        Stage::InputCheck => Action::CheckInputExists,
        Stage::OutputDir => Action::AskText(Prompt::OutputDir),
        Stage::Recursive => Action::AskYesNo(Prompt::Recursive, false),
        Stage::InPlace => Action::AskYesNo(Prompt::InPlace, false),
        Stage::Convert => Action::AskYesNo(Prompt::ConvertWebp, true),
        Stage::Quality => Action::AskText(Prompt::Quality),
        Stage::LimitWidth => Action::AskYesNo(Prompt::LimitWidth, false),
        Stage::MaxWidth => Action::AskText(Prompt::MaxWidth),
        Stage::Cleanup => Action::AskYesNo(Prompt::Cleanup, false),
        Stage::Start => Action::AskYesNo(Prompt::Start, true),
        Stage::Done => Action::Finish,
        Stage::Failed(e) => Action::Fail(e),
    }
}

impl Wizard {
    /// A new setup, and its first action (asking for the input directory).
    pub fn new() -> (r: (Wizard, Action))
        ensures
            r.0@ == initial_model(),
            r.1 == action_for(r.0.stage),
    {
        let w = Wizard {
            stage: Stage::InputDir,
            input: String::new(),
            output: String::new(),
            recursive: false,
            in_place: false,
            skip_webp: false,
            quality: 80,
            max_width: 0,
            cleanup: false,
        };
        (w, Action::AskText(Prompt::InputDir))
    }

    /// Takes the answer to the last action and returns the next action.
    pub fn step(&mut self, answer: Answer) -> (r: Action)
        ensures
            final(self)@ == next_model(old(self)@, answer@),
            r == action_for(final(self).stage),
            old(self).stage == Stage::Quality && answer is Text ==> 1 <= final(self).quality <= 100,
    {
        match (self.stage, answer) {
            (Stage::InputDir, Answer::Text(t)) => {
                self.input = t;
                self.stage = Stage::InputCheck;
            },
            (Stage::InputCheck, Answer::InputExists(e)) => {
                self.stage = if e {
                    Stage::OutputDir
                } else {
                    Stage::Failed(WizardError::MissingDirectory)
                };
            },
            (Stage::OutputDir, Answer::Text(t)) => {
                self.output = t;
                self.stage = Stage::Recursive;
            },
            (Stage::Recursive, Answer::YesNo(b)) => {
                self.recursive = b;
                self.stage = Stage::InPlace;
            },
            (Stage::InPlace, Answer::YesNo(b)) => {
                self.in_place = b;
                self.stage = Stage::Convert;
            },
            (Stage::Convert, Answer::YesNo(b)) => {
                if b {
                    self.skip_webp = false;
                    self.stage = Stage::Quality;
                } else {
                    self.skip_webp = true;
                    self.quality = 80;
                    self.max_width = 0;
                    self.cleanup = false;
                    self.stage = Stage::Start;
                }
            },
            (Stage::Quality, Answer::Text(t)) => {
                self.quality = effective_quality(
                    match parse_unsigned(t.as_str(), 255) {
                        Some(v) => v as u8,
                        None => 80,
                    },
                );
                self.stage = Stage::LimitWidth;
            },
            (Stage::LimitWidth, Answer::YesNo(b)) => {
                if b {
                    self.stage = Stage::MaxWidth;
                } else {
                    self.max_width = 0;
                    self.stage = Stage::Cleanup;
                }
            },
            (Stage::MaxWidth, Answer::Text(t)) => {
                self.max_width = match parse_unsigned(t.as_str(), u32::MAX) {
                    Some(v) => v,
                    None => 2048,
                };
                self.stage = Stage::Cleanup;
            },
            (Stage::Cleanup, Answer::YesNo(b)) => {
                self.cleanup = b;
                self.stage = Stage::Start;
            },
            (Stage::Start, Answer::YesNo(b)) => {
                self.stage = if b {
                    Stage::Done
                } else {
                    Stage::Failed(WizardError::Cancelled)
                };
            },
            _ => {},
        }
        action_of(self.stage)
    }
}

/// The settings gathered agree with one another: the quality is always in
/// 1..=100; while the quality and width questions are pending, conversion
/// is on; once conversion was declined, quality, width limit and cleanup
/// keep their defaults.
pub open spec fn consistent(w: WizardModel) -> bool {
    &&& 1 <= w.quality <= 100
    &&& (w.stage == Stage::Quality || w.stage == Stage::LimitWidth || w.stage == Stage::MaxWidth
        || w.stage == Stage::Cleanup) ==> !w.skip_webp
    &&& (w.stage == Stage::Start || w.stage == Stage::Done) && w.skip_webp ==> w.quality == 80
        && w.max_width == 0 && !w.cleanup
}

/// The state after a sequence of answers.
pub open spec fn run_model(w: WizardModel, answers: Seq<AnswerModel>) -> WizardModel
    decreases answers.len(),
{
    if answers.len() == 0 {
        w
    } else {
        next_model(run_model(w, answers.drop_last()), answers.last())
    }
}

/// One step keeps the settings consistent.
pub proof fn lemma_step_consistent(w: WizardModel, a: AnswerModel)
    requires
        consistent(w),
    ensures
        consistent(next_model(w, a)),
{
}

/// Whatever the answers, the quality of a finished setup is in 1..=100, and
/// a finished setup without conversion keeps the default quality (80) and
/// no width limit, and never removes originals.
pub proof fn lemma_finished_settings_consistent(answers: Seq<AnswerModel>)
    ensures
        consistent(run_model(initial_model(), answers)),
        1 <= run_model(initial_model(), answers).quality <= 100,
        run_model(initial_model(), answers).stage == Stage::Done && run_model(
            initial_model(),
            answers,
        ).skip_webp ==> !run_model(initial_model(), answers).cleanup && run_model(
            initial_model(),
            answers,
        ).quality == 80 && run_model(initial_model(), answers).max_width == 0,
    decreases answers.len(),
{
    if answers.len() > 0 {
        lemma_finished_settings_consistent(answers.drop_last());
        lemma_step_consistent(run_model(initial_model(), answers.drop_last()), answers.last());
    }
}

/// The width limit answer: a text of decimal digits spelling a `u32` sets
/// the limit to that number; a text with any other character (or empty)
/// sets the default 2048. Either way the cleanup question comes next.
pub proof fn lemma_max_width_answer(w: WizardModel, t: Seq<char>)
    requires
        w.stage == Stage::MaxWidth,
    ensures
        next_model(w, AnswerModel::Text(t)).stage == Stage::Cleanup,
        t.len() > 0 && all_digits(t) && decimal_value(t) <= u32::MAX ==> next_model(
            w,
            AnswerModel::Text(t),
        ).max_width as int == decimal_value(t),
        (t.len() == 0 || exists|k: int| 0 <= k < t.len() && !is_digit(#[trigger] t[k]) && !(k == 0 && t[k] == '+'))
            ==> next_model(w, AnswerModel::Text(t)).max_width == 2048,
{
    lemma_parse_reads_digits(t, u32::MAX as nat);
}

/// The quality answer: a text of decimal digits spelling a number from 1 to
/// 100 sets the quality to that number; larger numbers up to 255 give 100,
/// 0 gives 1; a text with any other character (or empty) gives the default
/// 80. The width-limit question comes next.
pub proof fn lemma_quality_answer(w: WizardModel, t: Seq<char>)
    requires
        w.stage == Stage::Quality,
    ensures
        next_model(w, AnswerModel::Text(t)).stage == Stage::LimitWidth,
        t.len() > 0 && all_digits(t) && 1 <= decimal_value(t) <= 100 ==> next_model(
            w,
            AnswerModel::Text(t),
        ).quality as int == decimal_value(t),
        t.len() > 0 && all_digits(t) && 100 < decimal_value(t) <= 255 ==> next_model(
            w,
            AnswerModel::Text(t),
        ).quality == 100,
        t.len() > 0 && all_digits(t) && decimal_value(t) == 0 ==> next_model(
            w,
            AnswerModel::Text(t),
        ).quality == 1,
        (t.len() == 0 || exists|k: int| 0 <= k < t.len() && !is_digit(#[trigger] t[k]) && !(k == 0 && t[k] == '+'))
            ==> next_model(w, AnswerModel::Text(t)).quality == 80,
{
    lemma_parse_reads_digits(t, 255);
}

/// A setup that converts: after the input directory (found), the output
/// directory, the recursion and in-place answers, yes to conversion, a
/// quality, no width limit, the cleanup answer and yes to start, the setup
/// is finished with exactly these settings.
pub proof fn lemma_converting_run(
    input: Seq<char>,
    output: Seq<char>,
    recursive: bool,
    in_place: bool,
    quality: Seq<char>,
    cleanup: bool,
)
    ensures
        ({
            let w = run_model(
                initial_model(),
                seq![
                    AnswerModel::Text(input),
                    AnswerModel::InputExists(true),
                    AnswerModel::Text(output),
                    AnswerModel::YesNo(recursive),
                    AnswerModel::YesNo(in_place),
                    AnswerModel::YesNo(true),
                    AnswerModel::Text(quality),
                    AnswerModel::YesNo(false),
                    AnswerModel::YesNo(cleanup),
                    AnswerModel::YesNo(true),
                ],
            );
            &&& w.stage == Stage::Done
            &&& w.input == input
            &&& w.output == output
            &&& w.recursive == recursive
            &&& w.in_place == in_place
            &&& !w.skip_webp
            &&& w.quality == quality_from(quality)
            &&& w.max_width == 0
            &&& w.cleanup == cleanup
        }),
{
    let a = seq![
        AnswerModel::Text(input),
        AnswerModel::InputExists(true),
        AnswerModel::Text(output),
        AnswerModel::YesNo(recursive),
        AnswerModel::YesNo(in_place),
        AnswerModel::YesNo(true),
        AnswerModel::Text(quality),
        AnswerModel::YesNo(false),
        AnswerModel::YesNo(cleanup),
        AnswerModel::YesNo(true),
    ];
    reveal_with_fuel(run_model, 11);
    assert(a.take(10) =~= a);
    assert(a.drop_last() =~= a.take(9));
    assert(a.take(9).drop_last() =~= a.take(8));
    assert(a.take(8).drop_last() =~= a.take(7));
    assert(a.take(7).drop_last() =~= a.take(6));
    assert(a.take(6).drop_last() =~= a.take(5));
    assert(a.take(5).drop_last() =~= a.take(4));
    assert(a.take(4).drop_last() =~= a.take(3));
    assert(a.take(3).drop_last() =~= a.take(2));
    assert(a.take(2).drop_last() =~= a.take(1));
    assert(a.take(1).drop_last() =~= a.take(0));
}

/// A setup that does not convert: after the input directory (found), the
/// output directory, the recursion and in-place answers, no to conversion
/// and yes to start, the setup is finished without conversion, with the
/// default quality, no width limit and no cleanup.
pub proof fn lemma_non_converting_run(input: Seq<char>, output: Seq<char>, recursive: bool, in_place: bool)
    ensures
        ({
            let w = run_model(
                initial_model(),
                seq![
                    AnswerModel::Text(input),
                    AnswerModel::InputExists(true),
                    AnswerModel::Text(output),
                    AnswerModel::YesNo(recursive),
                    AnswerModel::YesNo(in_place),
                    AnswerModel::YesNo(false),
                    AnswerModel::YesNo(true),
                ],
            );
            &&& w.stage == Stage::Done
            &&& w.input == input
            &&& w.output == output
            &&& w.recursive == recursive
            &&& w.in_place == in_place
            &&& w.skip_webp
            &&& w.quality == 80
            &&& w.max_width == 0
            &&& !w.cleanup
        }),
{
    let a = seq![
        AnswerModel::Text(input),
        AnswerModel::InputExists(true),
        AnswerModel::Text(output),
        AnswerModel::YesNo(recursive),
        AnswerModel::YesNo(in_place),
        AnswerModel::YesNo(false),
        AnswerModel::YesNo(true),
    ];
    reveal_with_fuel(run_model, 8);
    assert(a.drop_last() =~= a.take(6));
    assert(a.take(6).drop_last() =~= a.take(5));
    assert(a.take(5).drop_last() =~= a.take(4));
    assert(a.take(4).drop_last() =~= a.take(3));
    assert(a.take(3).drop_last() =~= a.take(2));
    assert(a.take(2).drop_last() =~= a.take(1));
    assert(a.take(1).drop_last() =~= a.take(0));
}

/// A missing input directory ends the setup with that error, whatever was
/// typed.
pub proof fn lemma_missing_directory(input: Seq<char>)
    ensures
        run_model(initial_model(), seq![AnswerModel::Text(input), AnswerModel::InputExists(false)]).stage
            == Stage::Failed(WizardError::MissingDirectory),
{
    let a = seq![AnswerModel::Text(input), AnswerModel::InputExists(false)];
    reveal_with_fuel(run_model, 3);
    assert(a.drop_last() =~= a.take(1));
    assert(a.take(1).drop_last() =~= a.take(0));
}

/// Once the setup has ended (finished or failed), answers change nothing.
pub proof fn lemma_end_is_final(w: WizardModel, a: AnswerModel)
    requires
        w.stage == Stage::Done || w.stage is Failed,
    ensures
        next_model(w, a) == w,
{
}

} // verus!
