use exif_catcher::cli::{cleanup_is_inert, effective_quality, input_source, InputSource};
use exif_catcher::wizard::{text_default, Action, Answer, Prompt, Stage, Wizard, WizardError};

#[test]
fn settings_source() {
    assert_eq!(input_source(true, true, false), InputSource::Given);
    assert_eq!(input_source(false, true, false), InputSource::CurrentDir);
    assert_eq!(input_source(false, false, true), InputSource::CurrentDir);
    assert_eq!(input_source(false, false, false), InputSource::Interactive);
}

#[test]
fn quality_is_clamped() {
    assert_eq!(effective_quality(0), 1);
    assert_eq!(effective_quality(1), 1);
    assert_eq!(effective_quality(80), 80);
    assert_eq!(effective_quality(100), 100);
    assert_eq!(effective_quality(255), 100);
    assert!(cleanup_is_inert(true, true));
    assert!(!cleanup_is_inert(true, false));
}

fn text(s: &str) -> Answer {
    Answer::Text(s.to_string())
}

#[test]
fn wizard_full_conversion_run() {
    let (mut w, a) = Wizard::new();
    assert_eq!(a, Action::AskText(Prompt::InputDir));
    assert_eq!(text_default(Prompt::InputDir), "./photos");
    assert_eq!(w.step(text("./photos")), Action::CheckInputExists);
    assert_eq!(w.step(Answer::InputExists(true)), Action::AskText(Prompt::OutputDir));
    assert_eq!(text_default(Prompt::OutputDir), "./dist");
    assert_eq!(w.step(text("./dist")), Action::AskYesNo(Prompt::Recursive, false));
    assert_eq!(w.step(Answer::YesNo(true)), Action::AskYesNo(Prompt::InPlace, false));
    assert_eq!(w.step(Answer::YesNo(false)), Action::AskYesNo(Prompt::ConvertWebp, true));
    assert_eq!(w.step(Answer::YesNo(true)), Action::AskText(Prompt::Quality));
    assert_eq!(text_default(Prompt::Quality), "80");
    assert_eq!(w.step(text("85")), Action::AskYesNo(Prompt::LimitWidth, false));
    assert_eq!(w.step(Answer::YesNo(true)), Action::AskText(Prompt::MaxWidth));
    assert_eq!(text_default(Prompt::MaxWidth), "2048");
    assert_eq!(w.step(text("wide")), Action::AskYesNo(Prompt::Cleanup, false));
    assert_eq!(w.step(Answer::YesNo(true)), Action::AskYesNo(Prompt::Start, true));
    assert_eq!(w.step(Answer::YesNo(true)), Action::Finish);
    assert_eq!(w.stage, Stage::Done);
    assert_eq!(w.input, "./photos");
    assert_eq!(w.output, "./dist");
    assert!(w.recursive && !w.in_place && !w.skip_webp && w.cleanup);
    assert_eq!(w.quality, 85);
    assert_eq!(w.max_width, 2048);
    // Nothing changes after the end.
    assert_eq!(w.step(Answer::YesNo(false)), Action::Finish);
}

#[test]
fn wizard_without_conversion() {
    let (mut w, _) = Wizard::new();
    w.step(text("in"));
    w.step(Answer::InputExists(true));
    w.step(text("out"));
    w.step(Answer::YesNo(false));
    w.step(Answer::YesNo(true));
    assert_eq!(w.step(Answer::YesNo(false)), Action::AskYesNo(Prompt::Start, true));
    assert_eq!(w.step(Answer::YesNo(true)), Action::Finish);
    assert!(w.skip_webp && !w.cleanup && w.in_place);
    assert_eq!(w.quality, 80);
    assert_eq!(w.max_width, 0);
}

#[test]
fn wizard_quality_clamped_and_defaults() {
    let (mut w, _) = Wizard::new();
    w.step(text("in"));
    w.step(Answer::InputExists(true));
    w.step(text("out"));
    w.step(Answer::YesNo(false));
    w.step(Answer::YesNo(false));
    w.step(Answer::YesNo(true));
    w.step(text("0"));
    assert_eq!(w.quality, 1);
    let (mut v, _) = Wizard::new();
    v.step(text("in"));
    v.step(Answer::InputExists(true));
    v.step(text("out"));
    v.step(Answer::YesNo(false));
    v.step(Answer::YesNo(false));
    v.step(Answer::YesNo(true));
    v.step(text("300"));
    assert_eq!(v.quality, 80);
    assert_eq!(v.step(Answer::YesNo(false)), Action::AskYesNo(Prompt::Cleanup, false));
    assert_eq!(v.max_width, 0);
    for (answer, expected) in [("200", 100u8), ("100", 100), ("1", 1), ("+55", 55), ("abc", 80)] {
        let (mut u, _) = Wizard::new();
        u.step(text("in"));
        u.step(Answer::InputExists(true));
        u.step(text("out"));
        u.step(Answer::YesNo(false));
        u.step(Answer::YesNo(false));
        u.step(Answer::YesNo(true));
        u.step(text(answer));
        assert_eq!(u.quality, expected, "{}", answer);
    }
}

#[test]
fn wizard_failures() {
    let (mut w, _) = Wizard::new();
    w.step(text("missing"));
    assert_eq!(w.step(Answer::InputExists(false)), Action::Fail(WizardError::MissingDirectory));
    let (mut v, _) = Wizard::new();
    // A wrong kind of answer repeats the question.
    assert_eq!(v.step(Answer::YesNo(true)), Action::AskText(Prompt::InputDir));
    v.step(text("in"));
    v.step(Answer::InputExists(true));
    v.step(text("out"));
    v.step(Answer::YesNo(false));
    v.step(Answer::YesNo(false));
    v.step(Answer::YesNo(false));
    assert_eq!(v.step(Answer::YesNo(false)), Action::Fail(WizardError::Cancelled));
}
