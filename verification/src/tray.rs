//! The tray application: what its menu shows, and what it does on every event.
//!
//! The state machine here decides; the windowing code around it performs the
//! actions it returns and reports back what happened.

use crate::recorder::{
    encoder_label, labels_name_what_they_stand_for, quality_label, resolve_encoder, second_of_day,
    Capabilities, Encoder, Mode, Quality, Rect,
};
use crate::selector::Outcome;
use crate::settings::Settings;
use crate::text::{
    decimal, decimal_string, holds_word, index_of, number_after, padded, padded_number_reads_back,
    padded_numbers_sort, padded_string, push_str, push_string, same_text, stands_at, texts, unsigned,
    written_number_reads_back,
};
use vstd::prelude::*;

verus! {

/// Frame rates the menu offers.
pub const FPS_CHOICES: [u32; 3] = [24, 30, 60];

/// What the tooltip says.
#[derive(Clone, Copy, PartialEq, Eq, Debug, Structural)]
pub enum Tip {
    Idle,
    Selecting,
    Starting,
    Finalizing,
    /// Recording, for this many seconds.
    Elapsed(u64),
}

/// The text of a tooltip.
pub open spec fn tip_text(t: Tip) -> Seq<char> {
    match t {
        Tip::Idle => "ORR Desktop Recorder"@,
        Tip::Selecting => "Drag a rectangle to select area (Esc cancels)"@,
        Tip::Starting => "ORR starting..."@,
        Tip::Finalizing => "ORR finalizing mp4..."@,
        Tip::Elapsed(s) => "ORR REC "@ + padded((s / 3600) as nat, 2) + ":"@ + padded(
            ((s % 3600) / 60) as nat,
            2,
        ) + ":"@ + padded((s % 60) as nat, 2),
    }
}

impl Tip {
    /// The text of the tooltip.
    pub fn text(self) -> (r: String)
        ensures
            r@ == tip_text(self),
    {
        match self {
            Tip::Idle => "ORR Desktop Recorder".to_owned(),
            Tip::Selecting => "Drag a rectangle to select area (Esc cancels)".to_owned(),
            Tip::Starting => "ORR starting...".to_owned(),
            Tip::Finalizing => "ORR finalizing mp4...".to_owned(),
            Tip::Elapsed(s) => {
                let mut t = "ORR REC ".to_owned();
                t.append(padded_string(s / 3600, 2).as_str());
                t.append(":");
                t.append(padded_string((s % 3600) / 60, 2).as_str());
                t.append(":");
                t.append(padded_string(s % 60, 2).as_str());
                t
            },
        }
    }
}

/// What went wrong, for the user to see.
#[derive(Clone, Debug)]
pub enum Problem {
    /// There is nothing to encode with.
    NoEncoder,
    /// What an outside step reported.
    Other(String),
}

/// The text of a problem.
pub open spec fn problem_text(p: Problem) -> Seq<char> {
    match p {
        Problem::NoEncoder =>
            "no usable h264 encoder found - is ffmpeg installed and on PATH?"@,
        Problem::Other(text) => text@,
    }
}

impl Problem {
    /// The text of the problem.
    pub fn text(self) -> (r: String)
        ensures
            r@ == problem_text(self),
    {
        match self {
            Problem::NoEncoder =>
                "no usable h264 encoder found - is ffmpeg installed and on PATH?".to_owned(),
            Problem::Other(text) => text,
        }
    }
}

/// What the windowing code is to do.
#[derive(Clone, Debug)]
pub enum Action {
    /// Bring the menu up to date.
    SyncMenu,
    /// Show a tooltip.
    Show(Tip),
    /// Report a problem.
    Fatal(Problem),
    /// Let the user pick a region.
    Select,
    /// Record within the process.
    Record(Mode),
    /// Start the external recorder.
    Launch(Mode, Encoder),
    /// Ask the recorder to finish.
    StopRecorder,
    /// Show the recordings.
    OpenFolder,
    /// Keep the settings.
    SaveSettings,
    /// Note why picking a region ended without one.
    NoteCancelled(String),
    /// Note where the recording is.
    NoteSaved,
    /// Note why the recording failed.
    NoteFailed(String),
}

/// What a menu entry stands for.
#[derive(Clone, Copy, PartialEq, Eq, Debug, Structural)]
pub enum Choice {
    RecordFull,
    RecordArea,
    Stop,
    OpenFolder,
    Quit,
    TogglePerformance,
    ToggleMouse,
    SetQuality(Quality),
    SetFps(u32),
    SetEncoder(Encoder),
    Nothing,
}

/// What the entry with a given identifier stands for: fixed words, or a letter
/// and the place of a quality, frame rate or encoder.
pub open spec fn choice_of(id: Seq<char>) -> Choice {
    if id == "rec_full"@ {
        Choice::RecordFull
    } else if id == "rec_area"@ {
        Choice::RecordArea
    } else if id == "rec_stop"@ {
        Choice::Stop
    } else if id == "open_dir"@ {
        Choice::OpenFolder
    } else if id == "quit"@ {
        Choice::Quit
    } else if id == "perf"@ {
        Choice::TogglePerformance
    } else if id == "mouse"@ {
        Choice::ToggleMouse
    } else if let Some(i) = number_after(id, "q_"@) {
        if i < 4 {
            Choice::SetQuality(Quality::ALL[i as int])
        } else {
            Choice::Nothing
        }
    } else if let Some(i) = number_after(id, "f_"@) {
        if i < 3 {
            Choice::SetFps(FPS_CHOICES[i as int])
        } else {
            Choice::Nothing
        }
    } else if let Some(i) = number_after(id, "e_"@) {
        if i < 5 {
            Choice::SetEncoder(Encoder::ALL[i as int])
        } else {
            Choice::Nothing
        }
    } else {
        Choice::Nothing
    }
}

/// Computes [`choice_of`].
pub fn menu_choice(id: &str) -> (r: Choice)
    ensures
        r == choice_of(id@),
{
    if same_text(id, "rec_full") {
        return Choice::RecordFull;
    }
    if same_text(id, "rec_area") {
        return Choice::RecordArea;
    }
    if same_text(id, "rec_stop") {
        return Choice::Stop;
    }
    if same_text(id, "open_dir") {
        return Choice::OpenFolder;
    }
    if same_text(id, "quit") {
        return Choice::Quit;
    }
    if same_text(id, "perf") {
        return Choice::TogglePerformance;
    }
    if same_text(id, "mouse") {
        return Choice::ToggleMouse;
    }
    if let Some(i) = index_of(id, "q_") {
        return if i < 4 {
            Choice::SetQuality(Quality::ALL[i as usize])
        } else {
            Choice::Nothing
        };
    }
    if let Some(i) = index_of(id, "f_") {
        return if i < 3 {
            Choice::SetFps(FPS_CHOICES[i as usize])
        } else {
            Choice::Nothing
        };
    }
    if let Some(i) = index_of(id, "e_") {
        return if i < 5 {
            Choice::SetEncoder(Encoder::ALL[i as usize])
        } else {
            Choice::Nothing
        };
    }
    Choice::Nothing
}

/// What a [`TrayApp`] holds.
#[verifier::ext_equal]
pub struct TrayState {
    /// Usable encoders, most wanted first.
    pub encoders: Seq<Encoder>,
    /// The GPU desktop grabber is there.
    pub ddagrab: bool,
    /// Recordings go through the external recorder.
    pub external: bool,
    pub settings: Settings,
    pub recording: bool,
    pub selecting: bool,
    pub exiting: bool,
    pub exit_pending: bool,
}

impl TrayState {
    /// A recording runs or a region is being picked.
    pub open spec fn busy(self) -> bool {
        self.recording || self.selecting
    }
}

/// A state with what has to be done on the way into it.
pub type Step = (TrayState, Seq<Action>);

/// The encoder that is used: the wanted one if it is usable, else the most wanted
/// one there is.
pub open spec fn encoder_for(pref: Encoder, encoders: Seq<Encoder>) -> Encoder {
    if pref is Auto || !encoders.contains(pref) {
        encoders[0]
    } else {
        pref
    }
}

/// The encoder to record with, `None` only if there is none at all.
pub fn choose_encoder(pref: Encoder, caps: &Capabilities) -> (r: Option<Encoder>)
    ensures
        r == (if caps.encoders@.len() == 0 {
            None
        } else {
            Some(encoder_for(pref, caps.encoders@))
        }),
{
    match resolve_encoder(pref, caps) {
        Some(e) => Some(e),
        None => resolve_encoder(Encoder::Auto, caps),
    }
}

/// Asking for a recording.
pub open spec fn begin_step(s: TrayState, mode: Mode) -> Step {
    if s.recording {
        (s, Seq::empty())
    } else if !s.external {
        (s, seq![Action::Record(mode)])
    } else if s.encoders.len() == 0 {
        (s, seq![Action::Fatal(Problem::NoEncoder)])
    } else {
        (s, seq![Action::Launch(mode, encoder_for(s.settings.encoder, s.encoders))])
    }
}

/// A recording is only ever started with an encoder that the machine offers, and
/// with the wanted one if that is among them.
pub proof fn recording_uses_an_offered_encoder(s: TrayState, mode: Mode, i: int)
    requires
        0 <= i < begin_step(s, mode).1.len(),
        begin_step(s, mode).1[i] is Launch,
    ensures
        s.encoders.contains(begin_step(s, mode).1[i]->Launch_1),
        s.encoders.contains(s.settings.encoder) && !(s.settings.encoder is Auto) ==> begin_step(
            s,
            mode,
        ).1[i]->Launch_1 == s.settings.encoder,
        begin_step(s, mode).1[i]->Launch_0 == mode,
{
}

/// Asking the recorder to finish.
pub open spec fn stop_actions(s: TrayState) -> Seq<Action> {
    if s.recording {
        seq![Action::StopRecorder, Action::Show(Tip::Finalizing)]
    } else {
        Seq::empty()
    }
}

/// New settings, which are kept and shown.
pub open spec fn settings_step(s: TrayState, settings: Settings) -> Step {
    (TrayState { settings, ..s }, seq![Action::SaveSettings, Action::SyncMenu])
}

/// The user chose a menu entry.
pub open spec fn menu_step(s: TrayState, c: Choice) -> Step {
    match c {
        Choice::RecordFull => if s.busy() {
            (s, Seq::empty())
        } else {
            begin_step(s, Mode::FullScreen)
        },
        Choice::RecordArea => if s.busy() {
            (s, Seq::empty())
        } else {
            (
                TrayState { selecting: true, ..s },
                seq![Action::SyncMenu, Action::Show(Tip::Selecting), Action::Select],
            )
        },
        Choice::Stop => (s, stop_actions(s)),
        Choice::OpenFolder => (s, seq![Action::OpenFolder]),
        Choice::Quit => (
            TrayState { exiting: true, exit_pending: s.exit_pending || !s.recording, ..s },
            stop_actions(s),
        ),
        Choice::TogglePerformance => settings_step(
            s,
            Settings { performance_mode: !s.settings.performance_mode, ..s.settings },
        ),
        Choice::ToggleMouse => settings_step(
            s,
            Settings { capture_mouse: !s.settings.capture_mouse, ..s.settings },
        ),
        Choice::SetQuality(quality) => settings_step(s, Settings { quality, ..s.settings }),
        Choice::SetFps(fps) => settings_step(s, Settings { fps, ..s.settings }),
        Choice::SetEncoder(encoder) => settings_step(s, Settings { encoder, ..s.settings }),
        Choice::Nothing => (s, Seq::empty()),
    }
}

/// Picking a region ended.
pub open spec fn selector_step(s: TrayState, o: Outcome) -> Step {
    let t = TrayState { selecting: false, ..s };
    match o {
        Outcome::Selected(rect) => begin_step(t, Mode::Area(rect)),
        Outcome::Cancelled(why) => (
            t,
            seq![Action::NoteCancelled(why), Action::SyncMenu] + (if t.busy() {
                Seq::empty()
            } else {
                seq![Action::Show(Tip::Idle)]
            }),
        ),
    }
}

/// The recorder was launched, or could not be.
pub open spec fn launched_step(s: TrayState, failure: Option<String>) -> Step {
    match failure {
        None => (
            TrayState { recording: true, ..s },
            seq![Action::Show(Tip::Starting), Action::SyncMenu],
        ),
        Some(e) => (s, seq![Action::Fatal(Problem::Other(e))]),
    }
}

/// A second of recording went by.
pub open spec fn tick_step(s: TrayState, elapsed: u64) -> Step {
    (
        s,
        if s.recording {
            seq![Action::Show(Tip::Elapsed(elapsed))]
        } else {
            Seq::empty()
        },
    )
}

/// The recorder ended, well or with a failure.
pub open spec fn finished_step(s: TrayState, failure: Option<String>) -> Step {
    let note = if !s.recording {
        Seq::empty()
    } else {
        match failure {
            None => seq![Action::NoteSaved],
            Some(e) => seq![Action::NoteFailed(e)],
        }
    };
    let t = TrayState {
        recording: false,
        exit_pending: s.exit_pending || (failure is None && s.exiting),
        ..s
    };
    (
        t,
        note + seq![Action::SyncMenu] + (match failure {
            Some(e) => seq![Action::Fatal(Problem::Other(e))],
            None => if s.exiting {
                Seq::empty()
            } else {
                seq![Action::Show(Tip::Idle)]
            },
        }),
    )
}

/// The tray application.
pub struct TrayApp {
    caps: Capabilities,
    external: bool,
    settings: Settings,
    recording: bool,
    selecting: bool,
    exiting: bool,
    exit_pending: bool,
}

impl View for TrayApp {
    type V = TrayState;

    closed spec fn view(&self) -> TrayState {
        TrayState {
            encoders: self.caps.encoders@,
            ddagrab: self.caps.ddagrab,
            external: self.external,
            settings: self.settings,
            recording: self.recording,
            selecting: self.selecting,
            exiting: self.exiting,
            exit_pending: self.exit_pending,
        }
    }
}

impl TrayApp {
    /// The application before anything happened. With `external`, recordings go
    /// through the external recorder.
    pub fn new(caps: Capabilities, settings: Settings, external: bool) -> (r: TrayApp)
        ensures
            r@ == (TrayState {
                encoders: caps.encoders@,
                ddagrab: caps.ddagrab,
                external,
                settings,
                recording: false,
                selecting: false,
                exiting: false,
                exit_pending: false,
            }),
    {
        TrayApp {
            caps,
            external,
            settings,
            recording: false,
            selecting: false,
            exiting: false,
            exit_pending: false,
        }
    }

    /// A recording runs or a region is being picked.
    pub fn busy(&self) -> (r: bool)
        ensures
            r == self@.busy(),
    {
        self.recording || self.selecting
    }

    /// The event loop is to end.
    pub fn exit_pending(&self) -> (r: bool)
        ensures
            r == self@.exit_pending,
    {
        self.exit_pending
    }

    /// The settings in force.
    pub fn settings(&self) -> (r: &Settings)
        ensures
            *r == self@.settings,
    {
        &self.settings
    }

    /// What the machine can do.
    pub fn caps(&self) -> (r: &Capabilities)
        ensures
            r.encoders@ == self@.encoders,
            r.ddagrab == self@.ddagrab,
    {
        &self.caps
    }

    fn begin(&self, mode: Mode) -> (r: Vec<Action>)
        ensures
            r@ == begin_step(self@, mode).1,
    {
        let mut actions: Vec<Action> = Vec::new();
        if !self.recording && !self.external {
            actions.push(Action::Record(mode));
        } else if !self.recording {
            match choose_encoder(self.settings.encoder, &self.caps) {
                None => actions.push(Action::Fatal(Problem::NoEncoder)),
                Some(e) => actions.push(Action::Launch(mode, e)),
            }
        }
        assert(actions@ =~= begin_step(self@, mode).1);
        actions
    }

    fn stop(&self) -> (r: Vec<Action>)
        ensures
            r@ == stop_actions(self@),
    {
        let mut actions: Vec<Action> = Vec::new();
        if self.recording {
            actions.push(Action::StopRecorder);
            actions.push(Action::Show(Tip::Finalizing));
        }
        assert(actions@ =~= stop_actions(self@));
        actions
    }

    /// The user chose the menu entry with this identifier.
    pub fn handle_menu_id(&mut self, id: &str) -> (r: Vec<Action>)
        ensures
            final(self)@ == menu_step(old(self)@, choice_of(id@)).0,
            r@ == menu_step(old(self)@, choice_of(id@)).1,
    {
        let mut actions: Vec<Action> = Vec::new();
        let choice = menu_choice(id);
        match choice {
            Choice::RecordFull => {
                if !self.busy() {
                    actions = self.begin(Mode::FullScreen);
                }
            },
            Choice::RecordArea => {
                if !self.busy() {
                    self.selecting = true;
                    actions.push(Action::SyncMenu);
                    actions.push(Action::Show(Tip::Selecting));
                    actions.push(Action::Select);
                }
            },
            Choice::Stop => {
                actions = self.stop();
            },
            Choice::OpenFolder => {
                actions.push(Action::OpenFolder);
            },
            Choice::Quit => {
                self.exiting = true;
                actions = self.stop();
                if !self.recording {
                    self.exit_pending = true;
                }
            },
            Choice::TogglePerformance => {
                self.settings.performance_mode = !self.settings.performance_mode;
                push_saved(&mut actions);
            },
            Choice::ToggleMouse => {
                self.settings.capture_mouse = !self.settings.capture_mouse;
                push_saved(&mut actions);
            },
            Choice::SetQuality(q) => {
                self.settings.quality = q;
                push_saved(&mut actions);
            },
            Choice::SetFps(f) => {
                self.settings.fps = f;
                push_saved(&mut actions);
            },
            Choice::SetEncoder(e) => {
                self.settings.encoder = e;
                push_saved(&mut actions);
            },
            Choice::Nothing => {},
        }
        assert(self@ =~= menu_step(old(self)@, choice).0);
        assert(actions@ =~= menu_step(old(self)@, choice).1);
        actions
    }

    /// Picking a region ended.
    pub fn on_selector(&mut self, outcome: Outcome) -> (r: Vec<Action>)
        ensures
            final(self)@ == selector_step(old(self)@, outcome).0,
            r@ == selector_step(old(self)@, outcome).1,
    {
        self.selecting = false;
        match outcome {
            Outcome::Selected(rect) => self.begin(Mode::Area(rect)),
            Outcome::Cancelled(why) => {
                let mut actions: Vec<Action> = Vec::new();
                actions.push(Action::NoteCancelled(why));
                actions.push(Action::SyncMenu);
                if !self.busy() {
                    actions.push(Action::Show(Tip::Idle));
                }
                assert(actions@ =~= selector_step(old(self)@, outcome).1);
                actions
            },
        }
    }

    /// The recorder was launched, or could not be.
    pub fn on_launched(&mut self, failure: Option<String>) -> (r: Vec<Action>)
        ensures
            final(self)@ == launched_step(old(self)@, failure).0,
            r@ == launched_step(old(self)@, failure).1,
    {
        let mut actions: Vec<Action> = Vec::new();
        match failure {
            None => {
                self.recording = true;
                actions.push(Action::Show(Tip::Starting));
                actions.push(Action::SyncMenu);
            },
            Some(e) => actions.push(Action::Fatal(Problem::Other(e))),
        }
        assert(actions@ =~= launched_step(old(self)@, failure).1);
        actions
    }

    /// A second of recording went by.
    pub fn on_tick(&self, elapsed: u64) -> (r: Vec<Action>)
        ensures
            r@ == tick_step(self@, elapsed).1,
    {
        let mut actions: Vec<Action> = Vec::new();
        if self.recording {
            actions.push(Action::Show(Tip::Elapsed(elapsed)));
        }
        assert(actions@ =~= tick_step(self@, elapsed).1);
        actions
    }

    /// The recorder ended, well or with a failure.
    pub fn on_finished(&mut self, failure: Option<String>) -> (r: Vec<Action>)
        ensures
            final(self)@ == finished_step(old(self)@, failure).0,
            r@ == finished_step(old(self)@, failure).1,
    {
        let mut actions: Vec<Action> = Vec::new();
        if self.recording {
            match &failure {
                None => actions.push(Action::NoteSaved),
                Some(e) => actions.push(Action::NoteFailed(e.clone())),
            }
        }
        self.recording = false;
        actions.push(Action::SyncMenu);
        match failure {
            Some(e) => actions.push(Action::Fatal(Problem::Other(e))),
            None => {
                if self.exiting {
                    self.exit_pending = true;
                } else {
                    actions.push(Action::Show(Tip::Idle));
                }
            },
        }
        assert(self@ =~= finished_step(old(self)@, failure).0);
        assert(actions@ =~= finished_step(old(self)@, failure).1);
        actions
    }
}

fn push_saved(actions: &mut Vec<Action>)
    ensures
        final(actions)@ == old(actions)@ + seq![Action::SaveSettings, Action::SyncMenu],
{
    actions.push(Action::SaveSettings);
    actions.push(Action::SyncMenu);
    assert(actions@ =~= old(actions)@ + seq![Action::SaveSettings, Action::SyncMenu]);
}

/// While a recording runs or a region is being picked, no menu entry starts
/// another one.
pub proof fn busy_app_starts_nothing(s: TrayState, c: Choice, i: int)
    requires
        s.busy(),
        0 <= i < menu_step(s, c).1.len(),
    ensures
        !(menu_step(s, c).1[i] is Record),
        !(menu_step(s, c).1[i] is Launch),
        !(menu_step(s, c).1[i] is Select),
{
}

/// Quitting during a recording asks the recorder to finish and waits: the
/// application ends only once the recording is complete.
pub proof fn quitting_waits_for_the_recording(s: TrayState)
    requires
        s.recording,
        !s.exit_pending,
    ensures
        ({
            let (t, actions) = menu_step(s, Choice::Quit);
            &&& !t.exit_pending
            &&& t.recording
            &&& actions[0] is StopRecorder
            &&& finished_step(t, None).0.exit_pending
            &&& !finished_step(t, None).0.recording
        }),
{
}

/// Toggling twice puts the settings back.
pub proof fn toggling_twice_changes_nothing(s: TrayState)
    ensures
        menu_step(menu_step(s, Choice::TogglePerformance).0, Choice::TogglePerformance).0 == s,
        menu_step(menu_step(s, Choice::ToggleMouse).0, Choice::ToggleMouse).0 == s,
{
}

/// What the menu shows as enabled and checked.
pub struct MenuMarks {
    pub record: bool,
    pub stop: bool,
    pub quality: Vec<bool>,
    pub fps: Vec<bool>,
    pub encoder: Vec<bool>,
    pub performance: bool,
    pub mouse: bool,
}

impl TrayApp {
    /// What the menu is to show: recording can be started when nothing goes on
    /// and stopped while it runs; each list has the chosen entry checked.
    pub fn menu_marks(&self) -> (r: MenuMarks)
        ensures
            r.record == !self@.busy(),
            r.stop == self@.recording,
            r.performance == self@.settings.performance_mode,
            r.mouse == self@.settings.capture_mouse,
            r.quality@ == Seq::new(
                4,
                |i: int| self@.settings.quality == Quality::ALL[i],
            ),
            r.fps@ == Seq::new(3, |i: int| self@.settings.fps == FPS_CHOICES[i]),
            r.encoder@ == Seq::new(
                5,
                |i: int| self@.settings.encoder == Encoder::ALL[i],
            ),
    {
        let mut quality: Vec<bool> = Vec::new();
        let mut i: usize = 0;
        while i < 4
            invariant
                i <= 4,
                quality@ == Seq::new(
                    i as nat,
                    |j: int| self@.settings.quality == Quality::ALL[j],
                ),
            decreases 4 - i,
        {
            quality.push(self.settings.quality == Quality::ALL[i]);
            i = i + 1;
            assert(quality@ =~= Seq::new(
                i as nat,
                |j: int| self@.settings.quality == Quality::ALL[j],
            ));
        }
        let mut fps: Vec<bool> = Vec::new();
        let mut k: usize = 0;
        while k < 3
            invariant
                k <= 3,
                fps@ == Seq::new(k as nat, |j: int| self@.settings.fps == FPS_CHOICES[j]),
            decreases 3 - k,
        {
            fps.push(self.settings.fps == FPS_CHOICES[k]);
            k = k + 1;
            assert(fps@ =~= Seq::new(k as nat, |j: int| self@.settings.fps == FPS_CHOICES[j]));
        }
        let mut encoder: Vec<bool> = Vec::new();
        let mut n: usize = 0;
        while n < 5
            invariant
                n <= 5,
                encoder@ == Seq::new(
                    n as nat,
                    |j: int| self@.settings.encoder == Encoder::ALL[j],
                ),
            decreases 5 - n,
        {
            encoder.push(self.settings.encoder == Encoder::ALL[n]);
            n = n + 1;
            assert(encoder@ =~= Seq::new(
                n as nat,
                |j: int| self@.settings.encoder == Encoder::ALL[j],
            ));
        }
        MenuMarks {
            record: !self.busy(),
            stop: self.recording,
            quality,
            fps,
            encoder,
            performance: self.settings.performance_mode,
            mouse: self.settings.capture_mouse,
        }
    }
}

/// What kind of line a menu holds.
#[derive(Clone, Copy, PartialEq, Eq, Debug, Structural)]
pub enum LineKind {
    Item,
    /// An item with a check mark.
    Check,
    /// A menu of its own; the lines one level deeper that follow are in it.
    Submenu,
    Separator,
}

/// One line of the menu.
#[derive(Clone, Debug)]
pub struct MenuLine {
    /// How many submenus the line is in.
    pub depth: u32,
    pub kind: LineKind,
    pub id: String,
    pub label: String,
    pub enabled: bool,
    pub checked: bool,
}

/// What a [`MenuLine`] says.
#[verifier::ext_equal]
pub struct LineView {
    pub depth: int,
    pub kind: LineKind,
    pub id: Seq<char>,
    pub label: Seq<char>,
    pub enabled: bool,
    pub checked: bool,
}

impl View for MenuLine {
    type V = LineView;

    open spec fn view(&self) -> LineView {
        LineView {
            depth: self.depth as int,
            kind: self.kind,
            id: self.id@,
            label: self.label@,
            enabled: self.enabled,
            checked: self.checked,
        }
    }
}

/// What a list of lines says.
pub open spec fn line_views(lines: Seq<MenuLine>) -> Seq<LineView> {
    lines.map_values(|l: MenuLine| l@)
}

/// A plain item of the topmost menu.
pub open spec fn item_line(id: Seq<char>, label: Seq<char>, enabled: bool) -> LineView {
    LineView { depth: 0, kind: LineKind::Item, id, label, enabled, checked: false }
}

/// An item with a check mark.
pub open spec fn check_line(depth: int, id: Seq<char>, label: Seq<char>, checked: bool) -> LineView {
    LineView { depth, kind: LineKind::Check, id, label, enabled: true, checked }
}

/// The head of a submenu.
pub open spec fn submenu_line(depth: int, id: Seq<char>, label: Seq<char>) -> LineView {
    LineView { depth, kind: LineKind::Submenu, id, label, enabled: true, checked: false }
}

/// A separator of the topmost menu.
pub open spec fn separator_line() -> LineView {
    LineView {
        depth: 0,
        kind: LineKind::Separator,
        id: ""@,
        label: ""@,
        enabled: false,
        checked: false,
    }
}

/// Lines that start and stop recordings.
pub open spec fn record_lines() -> Seq<LineView> {
    seq![
        item_line("rec_full"@, "Record Full Screen"@, true),
        item_line("rec_area"@, "Select Area && Record..."@, true),
        item_line("rec_stop"@, "Stop Recording"@, false),
        separator_line(),
    ]
}

/// The quality lines.
pub open spec fn quality_lines() -> Seq<LineView> {
    Seq::new(4, |i: int| check_line(2, entry_id("q_"@, i), quality_label(Quality::ALL[i]), false))
}

/// The frame rate lines.
pub open spec fn fps_lines() -> Seq<LineView> {
    Seq::new(3, |i: int| check_line(2, entry_id("f_"@, i), fps_label(FPS_CHOICES[i]), false))
}

/// The encoder lines.
pub open spec fn encoder_lines() -> Seq<LineView> {
    Seq::new(5, |i: int| check_line(2, entry_id("e_"@, i), encoder_label(Encoder::ALL[i]), false))
}

/// The two switches.
pub open spec fn switch_lines(s: Settings) -> Seq<LineView> {
    seq![
        check_line(1, "perf"@, "Performance Mode (max GPU)"@, s.performance_mode),
        check_line(1, "mouse"@, "Capture Mouse Cursor"@, s.capture_mouse),
    ]
}

/// The lines below the settings.
pub open spec fn closing_lines() -> Seq<LineView> {
    seq![
        item_line("open_dir"@, "Open Recordings Folder"@, true),
        separator_line(),
        item_line("quit"@, "Quit"@, true),
    ]
}

/// The whole menu, line by line, before anything is recorded. Which list entry is
/// checked is left to [`TrayApp::menu_marks`].
pub open spec fn menu_layout(s: Settings) -> Seq<LineView> {
    record_lines() + seq![
        submenu_line(0, "settings_sub"@, "Settings"@),
        submenu_line(1, "quality_sub"@, "Quality"@),
    ] + quality_lines() + seq![submenu_line(1, "fps_sub"@, "Frame Rate"@)] + fps_lines() + seq![
        submenu_line(1, "enc_sub"@, "Encoder"@),
    ] + encoder_lines() + switch_lines(s) + closing_lines()
}

fn push_line(
    lines: &mut Vec<MenuLine>,
    depth: u32,
    kind: LineKind,
    id: &str,
    label: &str,
    enabled: bool,
    checked: bool,
)
    ensures
        line_views(final(lines)@) == line_views(old(lines)@).push(
            (LineView { depth: depth as int, kind, id: id@, label: label@, enabled, checked }),
        ),
{
    lines.push(
        MenuLine { depth, kind, id: id.to_owned(), label: label.to_owned(), enabled, checked },
    );
    assert(line_views(lines@) =~= line_views(old(lines)@).push(
        (LineView { depth: depth as int, kind, id: id@, label: label@, enabled, checked }),
    ));
}

fn push_entries(lines: &mut Vec<MenuLine>, entries: &Entries)
    requires
        entries.ids@.len() == entries.labels@.len(),
    ensures
        line_views(final(lines)@) == line_views(old(lines)@) + Seq::new(
            entries.ids@.len(),
            |i: int| check_line(2, entries.ids@[i]@, entries.labels@[i]@, false),
        ),
{
    let mut k: usize = 0;
    assert(line_views(lines@) =~= line_views(old(lines)@) + Seq::new(
        0,
        |i: int| check_line(2, entries.ids@[i]@, entries.labels@[i]@, false),
    ));
    while k < entries.ids.len()
        invariant
            k <= entries.ids@.len(),
            entries.ids@.len() == entries.labels@.len(),
            line_views(lines@) == line_views(old(lines)@) + Seq::new(
                k as nat,
                |i: int| check_line(2, entries.ids@[i]@, entries.labels@[i]@, false),
            ),
        decreases entries.ids@.len() - k,
    {
        push_line(
            lines,
            2,
            LineKind::Check,
            entries.ids[k].as_str(),
            entries.labels[k].as_str(),
            true,
            false,
        );
        k = k + 1;
        assert(line_views(lines@) =~= line_views(old(lines)@) + Seq::new(
            k as nat,
            |i: int| check_line(2, entries.ids@[i]@, entries.labels@[i]@, false),
        ));
    }
}

fn push_quality_lines(lines: &mut Vec<MenuLine>)
    ensures
        line_views(final(lines)@) == line_views(old(lines)@) + quality_lines(),
{
    let entries = quality_entries();
    assert(texts(entries.ids@).len() == texts(entries.labels@).len());
    push_entries(lines, &entries);
    proof {
        assert forall|i: int| 0 <= i < 4 implies #[trigger] entries.ids@[i]@ == entry_id("q_"@, i)
            && entries.labels@[i]@ == quality_label(Quality::ALL[i]) by {
            assert(texts(entries.ids@)[i] == entry_id("q_"@, i));
            assert(texts(entries.labels@)[i] == quality_label(Quality::ALL[i]));
        }
        assert(line_views(lines@) =~= line_views(old(lines)@) + quality_lines());
    }
}

fn push_fps_lines(lines: &mut Vec<MenuLine>)
    ensures
        line_views(final(lines)@) == line_views(old(lines)@) + fps_lines(),
{
    let entries = fps_entries();
    assert(texts(entries.ids@).len() == texts(entries.labels@).len());
    push_entries(lines, &entries);
    proof {
        assert forall|i: int| 0 <= i < 3 implies #[trigger] entries.ids@[i]@ == entry_id("f_"@, i)
            && entries.labels@[i]@ == fps_label(FPS_CHOICES[i]) by {
            assert(texts(entries.ids@)[i] == entry_id("f_"@, i));
            assert(texts(entries.labels@)[i] == fps_label(FPS_CHOICES[i]));
        }
        assert(line_views(lines@) =~= line_views(old(lines)@) + fps_lines());
    }
}

fn push_encoder_lines(lines: &mut Vec<MenuLine>)
    ensures
        line_views(final(lines)@) == line_views(old(lines)@) + encoder_lines(),
{
    let entries = encoder_entries();
    assert(texts(entries.ids@).len() == texts(entries.labels@).len());
    push_entries(lines, &entries);
    proof {
        assert forall|i: int| 0 <= i < 5 implies #[trigger] entries.ids@[i]@ == entry_id("e_"@, i)
            && entries.labels@[i]@ == encoder_label(Encoder::ALL[i]) by {
            assert(texts(entries.ids@)[i] == entry_id("e_"@, i));
            assert(texts(entries.labels@)[i] == encoder_label(Encoder::ALL[i]));
        }
        assert(line_views(lines@) =~= line_views(old(lines)@) + encoder_lines());
    }
}

/// Lays the menu out.
pub fn menu_lines(settings: &Settings) -> (r: Vec<MenuLine>)
    ensures
        line_views(r@) == menu_layout(*settings),
{
    let mut lines: Vec<MenuLine> = Vec::new();
    push_line(&mut lines, 0, LineKind::Item, "rec_full", "Record Full Screen", true, false);
    push_line(&mut lines, 0, LineKind::Item, "rec_area", "Select Area && Record...", true, false);
    push_line(&mut lines, 0, LineKind::Item, "rec_stop", "Stop Recording", false, false);
    push_line(&mut lines, 0, LineKind::Separator, "", "", false, false);
    assert(line_views(lines@) =~= record_lines());
    push_line(&mut lines, 0, LineKind::Submenu, "settings_sub", "Settings", true, false);
    push_line(&mut lines, 1, LineKind::Submenu, "quality_sub", "Quality", true, false);
    let ghost a = record_lines() + seq![
        submenu_line(0, "settings_sub"@, "Settings"@),
        submenu_line(1, "quality_sub"@, "Quality"@),
    ];
    assert(line_views(lines@) =~= a);
    push_quality_lines(&mut lines);
    let ghost b = line_views(lines@);
    push_line(&mut lines, 1, LineKind::Submenu, "fps_sub", "Frame Rate", true, false);
    assert(line_views(lines@) =~= b + seq![submenu_line(1, "fps_sub"@, "Frame Rate"@)]);
    push_fps_lines(&mut lines);
    let ghost c = line_views(lines@);
    push_line(&mut lines, 1, LineKind::Submenu, "enc_sub", "Encoder", true, false);
    assert(line_views(lines@) =~= c + seq![submenu_line(1, "enc_sub"@, "Encoder"@)]);
    push_encoder_lines(&mut lines);
    let ghost d = line_views(lines@);
    push_line(
        &mut lines,
        1,
        LineKind::Check,
        "perf",
        "Performance Mode (max GPU)",
        true,
        settings.performance_mode,
    );
    push_line(
        &mut lines,
        1,
        LineKind::Check,
        "mouse",
        "Capture Mouse Cursor",
        true,
        settings.capture_mouse,
    );
    assert(line_views(lines@) =~= d + switch_lines(*settings));
    let ghost e = line_views(lines@);
    push_line(&mut lines, 0, LineKind::Item, "open_dir", "Open Recordings Folder", true, false);
    push_line(&mut lines, 0, LineKind::Separator, "", "", false, false);
    push_line(&mut lines, 0, LineKind::Item, "quit", "Quit", true, false);
    assert(line_views(lines@) =~= e + closing_lines());
    lines
}

/// Identifier of the entry at place `i` of a list: the list's letter and `i`.
pub open spec fn entry_id(prefix: Seq<char>, i: int) -> Seq<char> {
    prefix + decimal(i as nat)
}

/// Writes the identifier of the entry at place `i` of a list.
fn entry_id_string(prefix: &str, i: usize) -> (r: String)
    ensures
        r@ == entry_id(prefix@, i as int),
{
    let mut s = prefix.to_owned();
    s.append(decimal_string(i as u64).as_str());
    s
}

/// Menu entries: identifiers and labels, side by side.
pub struct Entries {
    pub ids: Vec<String>,
    pub labels: Vec<String>,
}

/// The quality entries.
pub fn quality_entries() -> (r: Entries)
    ensures
        texts(r.ids@) == Seq::new(4, |i: int| entry_id("q_"@, i)),
        texts(r.labels@) == Seq::new(4, |i: int| quality_label(Quality::ALL[i])),
{
    let mut ids: Vec<String> = Vec::new();
    let mut labels: Vec<String> = Vec::new();
    let mut k: usize = 0;
    while k < 4
        invariant
            k <= 4,
            texts(ids@) == Seq::new(k as nat, |i: int| entry_id("q_"@, i)),
            texts(labels@) == Seq::new(k as nat, |i: int| quality_label(Quality::ALL[i])),
        decreases 4 - k,
    {
        push_string(&mut ids, entry_id_string("q_", k));
        push_str(&mut labels, Quality::ALL[k].label());
        k = k + 1;
        assert(texts(ids@) =~= Seq::new(k as nat, |i: int| entry_id("q_"@, i)));
        assert(texts(labels@) =~= Seq::new(k as nat, |i: int| quality_label(Quality::ALL[i])));
    }
    Entries { ids, labels }
}

/// Label of a frame rate entry.
pub open spec fn fps_label(fps: u32) -> Seq<char> {
    decimal(fps as nat) + " FPS"@
}

/// The frame rate entries.
pub fn fps_entries() -> (r: Entries)
    ensures
        texts(r.ids@) == Seq::new(3, |i: int| entry_id("f_"@, i)),
        texts(r.labels@) == Seq::new(3, |i: int| fps_label(FPS_CHOICES[i])),
{
    let mut ids: Vec<String> = Vec::new();
    let mut labels: Vec<String> = Vec::new();
    let mut k: usize = 0;
    while k < 3
        invariant
            k <= 3,
            texts(ids@) == Seq::new(k as nat, |i: int| entry_id("f_"@, i)),
            texts(labels@) == Seq::new(k as nat, |i: int| fps_label(FPS_CHOICES[i])),
        decreases 3 - k,
    {
        push_string(&mut ids, entry_id_string("f_", k));
        let mut label = decimal_string(FPS_CHOICES[k] as u64);
        label.append(" FPS");
        push_string(&mut labels, label);
        k = k + 1;
        assert(texts(ids@) =~= Seq::new(k as nat, |i: int| entry_id("f_"@, i)));
        assert(texts(labels@) =~= Seq::new(k as nat, |i: int| fps_label(FPS_CHOICES[i])));
    }
    Entries { ids, labels }
}

/// The encoder entries.
pub fn encoder_entries() -> (r: Entries)
    ensures
        texts(r.ids@) == Seq::new(5, |i: int| entry_id("e_"@, i)),
        texts(r.labels@) == Seq::new(5, |i: int| encoder_label(Encoder::ALL[i])),
{
    let mut ids: Vec<String> = Vec::new();
    let mut labels: Vec<String> = Vec::new();
    let mut k: usize = 0;
    while k < 5
        invariant
            k <= 5,
            texts(ids@) == Seq::new(k as nat, |i: int| entry_id("e_"@, i)),
            texts(labels@) == Seq::new(k as nat, |i: int| encoder_label(Encoder::ALL[i])),
        decreases 5 - k,
    {
        push_string(&mut ids, entry_id_string("e_", k));
        push_str(&mut labels, Encoder::ALL[k].label());
        k = k + 1;
        assert(texts(ids@) =~= Seq::new(k as nat, |i: int| entry_id("e_"@, i)));
        assert(texts(labels@) =~= Seq::new(k as nat, |i: int| encoder_label(Encoder::ALL[i])));
    }
    Entries { ids, labels }
}

proof fn lemma_entry_number(prefix: Seq<char>, i: int)
    requires
        0 <= i <= u64::MAX,
    ensures
        number_after(entry_id(prefix, i), prefix) == Some(i as u64),
{
    written_number_reads_back(i as nat);
    let id = entry_id(prefix, i);
    assert(id.subrange(0, prefix.len() as int) =~= prefix);
    assert(id.skip(prefix.len() as int) =~= decimal(i as nat));
}

/// Every entry of the lists leads to what its label names.
pub proof fn entries_lead_to_their_choices(i: int)
    ensures
        0 <= i < 4 ==> choice_of(entry_id("q_"@, i)) == Choice::SetQuality(Quality::ALL[i]),
        0 <= i < 3 ==> choice_of(entry_id("f_"@, i)) == Choice::SetFps(FPS_CHOICES[i]),
        0 <= i < 5 ==> choice_of(entry_id("e_"@, i)) == Choice::SetEncoder(Encoder::ALL[i]),
{
    if 0 <= i < 5 {
        reveal_strlit("rec_full");
        reveal_strlit("rec_area");
        reveal_strlit("rec_stop");
        reveal_strlit("open_dir");
        reveal_strlit("quit");
        reveal_strlit("perf");
        reveal_strlit("mouse");
        reveal_strlit("q_");
        reveal_strlit("f_");
        reveal_strlit("e_");
        lemma_entry_number("q_"@, i);
        lemma_entry_number("f_"@, i);
        lemma_entry_number("e_"@, i);
        assert(entry_id("q_"@, i)[0] == 'q' && entry_id("q_"@, i)[1] == '_');
        assert(entry_id("f_"@, i)[0] == 'f' && entry_id("f_"@, i)[1] == '_');
        assert(entry_id("e_"@, i)[0] == 'e' && entry_id("e_"@, i)[1] == '_');
        assert(entry_id("f_"@, i).subrange(0, 2)[0] == 'f');
        assert(entry_id("e_"@, i).subrange(0, 2)[0] == 'e');
        assert("q_"@[0] == 'q');
        assert("f_"@[0] == 'f');
    }
}

/// Every line of the menu that can be chosen stands for something.
pub proof fn menu_lines_stand_for_something(s: Settings, i: int)
    requires
        0 <= i < menu_layout(s).len(),
        menu_layout(s)[i].kind is Item || menu_layout(s)[i].kind is Check,
    ensures
        !(choice_of(menu_layout(s)[i].id) is Nothing),
{
    let layout = menu_layout(s);
    assert(layout.len() == 25);
    reveal_strlit("rec_full");
    reveal_strlit("rec_area");
    reveal_strlit("rec_stop");
    reveal_strlit("open_dir");
    reveal_strlit("quit");
    reveal_strlit("perf");
    reveal_strlit("mouse");
    if 6 <= i < 10 {
        assert(layout[i].id == entry_id("q_"@, i - 6));
        entries_lead_to_their_choices(i - 6);
    } else if 11 <= i < 14 {
        assert(layout[i].id == entry_id("f_"@, i - 11));
        entries_lead_to_their_choices(i - 11);
    } else if 15 <= i < 20 {
        assert(layout[i].id == entry_id("e_"@, i - 15));
        entries_lead_to_their_choices(i - 15);
    }
}

/// Whatever recording is begun, within the process or by the external recorder, is of
/// what was asked for; one is begun, and only one, unless one runs already or there is
/// nothing to encode with, which is then reported.
pub proof fn begun_recording_is_of_what_was_asked_for(s: TrayState, mode: Mode)
    ensures
        ({
            let (t, actions) = begin_step(s, mode);
            &&& t == s
            &&& s.recording ==> actions.len() == 0
            &&& !s.recording ==> actions.len() == 1
            &&& forall|i: int|
                0 <= i < actions.len() ==> {
                    &&& #[trigger] actions[i] is Record ==> actions[i]->Record_0 == mode
                    &&& actions[i] is Launch ==> actions[i]->Launch_0 == mode
                }
            &&& !s.recording && !s.external ==> actions[0] is Record
            &&& !s.recording && s.external && s.encoders.len() > 0 ==> actions[0] is Launch
            &&& !s.recording && s.external && s.encoders.len() == 0 ==> actions[0] is Fatal
                && actions[0]->Fatal_0 is NoEncoder
        }),
{
}

/// Choosing to record the whole screen, when nothing goes on, records the whole
/// screen.
pub proof fn full_screen_entry_records_the_full_screen(s: TrayState)
    requires
        !s.recording,
        !s.selecting,
        !s.external || s.encoders.len() > 0,
    ensures
        ({
            let (t, actions) = menu_step(s, choice_of("rec_full"@));
            &&& t == s
            &&& actions.len() == 1
            &&& !s.external ==> actions[0] == Action::Record(Mode::FullScreen)
            &&& s.external ==> actions[0] is Launch && actions[0]->Launch_0 is FullScreen
        }),
{
    menu_words_stand_for_their_choices();
}

/// Choosing to record a region lets the user pick one; the one that was picked is then
/// recorded, and no other. Picking does not touch the settings.
pub proof fn picked_region_is_recorded(s: TrayState, rect: Rect)
    requires
        !s.recording,
        !s.selecting,
        !s.external || s.encoders.len() > 0,
    ensures
        ({
            let (t, asked) = menu_step(s, choice_of("rec_area"@));
            let (u, actions) = selector_step(t, Outcome::Selected(rect));
            &&& t.selecting
            &&& asked.len() == 3 && asked[2] is Select
            &&& asked[0] is SyncMenu && asked[1] == Action::Show(Tip::Selecting)
            &&& u == s
            &&& actions.len() == 1
            &&& !s.external ==> actions[0] == Action::Record(Mode::Area(rect))
            &&& s.external ==> actions[0] is Launch && actions[0]->Launch_0 == Mode::Area(rect)
        }),
{
    menu_words_stand_for_their_choices();
}

/// A pick that was cancelled records nothing, and is noted with its reason; the
/// application is then as it was before.
pub proof fn cancelled_pick_records_nothing(s: TrayState, why: String)
    requires
        !s.recording,
    ensures
        ({
            let (t, actions) = selector_step(s, Outcome::Cancelled(why));
            &&& !t.selecting
            &&& t == (TrayState { selecting: t.selecting, ..s })
            &&& actions.len() == 3
            &&& actions[0] == Action::NoteCancelled(why)
            &&& actions[1] is SyncMenu
            &&& actions[2] == Action::Show(Tip::Idle)
        }),
{
}

/// The external recorder is started with the wanted encoder if the machine has it, and
/// with the first one it has if that is not so or none is wanted in particular.
pub proof fn launched_encoder_is_the_wanted_or_the_first(s: TrayState, mode: Mode)
    requires
        !s.recording,
        s.external,
        s.encoders.len() > 0,
    ensures
        ({
            let wanted = s.settings.encoder;
            let used = begin_step(s, mode).1[0]->Launch_1;
            &&& !(wanted is Auto) && s.encoders.contains(wanted) ==> used == wanted
            &&& wanted is Auto || !s.encoders.contains(wanted) ==> used == s.encoders[0]
        }),
{
}

/// Stopping asks the recorder to finish exactly if one runs, and shows that the file
/// is being completed; the recording goes on until the recorder says it ended.
pub proof fn stopping_asks_the_recorder_to_finish(s: TrayState)
    ensures
        ({
            let (t, actions) = menu_step(s, choice_of("rec_stop"@));
            &&& t == s
            &&& s.recording ==> actions.len() == 2 && actions[0] is StopRecorder && actions[1]
                == Action::Show(Tip::Finalizing)
            &&& !s.recording ==> actions.len() == 0
        }),
{
    menu_words_stand_for_their_choices();
}

/// Quitting without a recording ends the application at once; with one it asks the
/// recorder to finish, and the application ends when the recording is complete.
pub proof fn quitting_ends_the_application(s: TrayState)
    requires
        !s.exit_pending,
    ensures
        ({
            let (t, actions) = menu_step(s, choice_of("quit"@));
            &&& t.exiting
            &&& t.exit_pending == !s.recording
            &&& t.recording == s.recording
            &&& t.settings == s.settings
            &&& s.recording ==> actions[0] is StopRecorder
            &&& !s.recording ==> actions.len() == 0
            &&& finished_step(t, None).0.exit_pending
        }),
{
    menu_words_stand_for_their_choices();
}

/// The application does not end of itself: without being told to quit, no event lets
/// it end.
pub proof fn application_ends_only_when_told(
    s: TrayState,
    c: Choice,
    o: Outcome,
    failure: Option<String>,
)
    requires
        !s.exiting,
        !s.exit_pending,
    ensures
        !(c is Quit) ==> !menu_step(s, c).0.exit_pending && !menu_step(s, c).0.exiting,
        !selector_step(s, o).0.exit_pending,
        !launched_step(s, failure).0.exit_pending,
        !finished_step(s, failure).0.exit_pending,
{
}

/// A recorder that was launched is recording; one that could not be is not, and the
/// reason is reported.
pub proof fn launched_recorder_is_recording(s: TrayState, e: String)
    ensures
        launched_step(s, None).0 == (TrayState { recording: true, ..s }),
        launched_step(s, None).1 == seq![Action::Show(Tip::Starting), Action::SyncMenu],
        launched_step(s, Some(e)).0 == s,
        launched_step(s, Some(e)).1 == seq![Action::Fatal(Problem::Other(e))],
{
}

/// The tooltip shows how long the recording runs, as long as it does.
pub proof fn tick_shows_the_elapsed_time(s: TrayState, elapsed: u64)
    ensures
        tick_step(s, elapsed).0 == s,
        s.recording ==> tick_step(s, elapsed).1 == seq![Action::Show(Tip::Elapsed(elapsed))],
        !s.recording ==> tick_step(s, elapsed).1.len() == 0,
{
}

/// After a recording the application is ready for the next one. A file is noted as
/// saved exactly if the recording went well; else its failure is noted and reported.
pub proof fn finished_recording_is_noted(s: TrayState, e: String)
    requires
        s.recording,
    ensures
        ({
            let (well, actions) = finished_step(s, None);
            let (badly, failures) = finished_step(s, Some(e));
            &&& !well.recording && !badly.recording
            &&& well == (TrayState {
                recording: false,
                exit_pending: s.exit_pending || s.exiting,
                ..s
            })
            &&& badly == (TrayState { recording: false, ..s })
            &&& actions[0] is NoteSaved && actions[1] is SyncMenu
            &&& !s.exiting ==> actions.len() == 3 && actions[2] == Action::Show(Tip::Idle)
            &&& s.exiting ==> actions.len() == 2
            &&& failures.len() == 3
            &&& failures[0] == Action::NoteFailed(e) && failures[1] is SyncMenu
            &&& failures[2] == Action::Fatal(Problem::Other(e))
        }),
{
}

/// A setting that was chosen is the one in force from then on; no other one changes,
/// nor anything else; and the settings are saved and the menu brought up to date.
pub proof fn chosen_setting_is_in_force(s: TrayState, c: Choice)
    requires
        c is SetQuality || c is SetFps || c is SetEncoder || c is TogglePerformance
            || c is ToggleMouse,
    ensures
        ({
            let (t, actions) = menu_step(s, c);
            let (a, b) = (s.settings, t.settings);
            &&& c is SetQuality ==> b.quality == c->SetQuality_0
            &&& !(c is SetQuality) ==> b.quality == a.quality
            &&& c is SetFps ==> b.fps == c->SetFps_0
            &&& !(c is SetFps) ==> b.fps == a.fps
            &&& c is SetEncoder ==> b.encoder == c->SetEncoder_0
            &&& !(c is SetEncoder) ==> b.encoder == a.encoder
            &&& b.performance_mode == (a.performance_mode != (c is TogglePerformance))
            &&& b.capture_mouse == (a.capture_mouse != (c is ToggleMouse))
            &&& b.cpu_threads == a.cpu_threads
            &&& b.output_dir == a.output_dir
            &&& t == (TrayState { settings: b, ..s })
            &&& actions.len() == 2 && actions[0] is SaveSettings && actions[1] is SyncMenu
        }),
{
}

/// The fixed menu entries stand for what their identifiers say.
pub proof fn menu_words_stand_for_their_choices()
    ensures
        choice_of("rec_full"@) is RecordFull,
        choice_of("rec_area"@) is RecordArea,
        choice_of("rec_stop"@) is Stop,
        choice_of("open_dir"@) is OpenFolder,
        choice_of("quit"@) is Quit,
        choice_of("perf"@) is TogglePerformance,
        choice_of("mouse"@) is ToggleMouse,
{
    reveal_strlit("rec_full");
    reveal_strlit("rec_area");
    reveal_strlit("rec_stop");
    reveal_strlit("open_dir");
    reveal_strlit("quit");
    reveal_strlit("perf");
    reveal_strlit("mouse");
    assert("rec_full"@[4] == 'f' && "rec_area"@[4] == 'a' && "rec_stop"@[4] == 's');
    assert("rec_full"@[0] == 'r' && "rec_area"@[0] == 'r' && "rec_stop"@[0] == 'r');
    assert("open_dir"@[0] == 'o' && "quit"@[0] == 'q' && "perf"@[0] == 'p' && "mouse"@[0] == 'm');
}

/// The fixed lines of the menu do what their labels say, and the switches show how
/// they are set.
pub proof fn menu_lines_do_what_they_say(s: Settings)
    ensures
        ({
            let l = menu_layout(s);
            &&& l.len() == 25
            &&& l[0].label == "Record Full Screen"@ && choice_of(l[0].id) is RecordFull
            &&& l[1].label == "Select Area && Record..."@ && choice_of(l[1].id) is RecordArea
            &&& l[2].label == "Stop Recording"@ && choice_of(l[2].id) is Stop
            &&& l[20].label == "Performance Mode (max GPU)"@ && choice_of(l[20].id)
                is TogglePerformance && l[20].checked == s.performance_mode
            &&& l[21].label == "Capture Mouse Cursor"@ && choice_of(l[21].id) is ToggleMouse
                && l[21].checked == s.capture_mouse
            &&& l[22].label == "Open Recordings Folder"@ && choice_of(l[22].id) is OpenFolder
            &&& l[24].label == "Quit"@ && choice_of(l[24].id) is Quit
        }),
{
    menu_words_stand_for_their_choices();
    lemma_layout_lists(s);
}

/// The presets are offered best first, and the line with a preset's name chooses it.
pub proof fn quality_lines_choose_what_they_say(s: Settings)
    ensures
        ({
            let l = menu_layout(s);
            &&& choice_of(l[6].id) == Choice::SetQuality(Quality::Ultra) && l[6].label == "Ultra"@
            &&& choice_of(l[7].id) == Choice::SetQuality(Quality::High) && l[7].label == "High"@
            &&& choice_of(l[8].id) == Choice::SetQuality(Quality::Medium) && l[8].label == "Medium"@
            &&& choice_of(l[9].id) == Choice::SetQuality(Quality::Low) && l[9].label == "Low"@
        }),
{
    let l = menu_layout(s);
    lemma_layout_lists(s);
    entries_lead_to_their_choices(0);
    entries_lead_to_their_choices(1);
    entries_lead_to_their_choices(2);
    entries_lead_to_their_choices(3);
    assert(l[6].id == entry_id("q_"@, 0) && l[7].id == entry_id("q_"@, 1));
    assert(l[8].id == entry_id("q_"@, 2) && l[9].id == entry_id("q_"@, 3));
}

/// The frame rates are offered slowest first, and the line with a rate chooses it.
pub proof fn frame_rate_lines_choose_what_they_say(s: Settings)
    ensures
        ({
            let l = menu_layout(s);
            &&& choice_of(l[11].id) == Choice::SetFps(24) && l[11].label == decimal(24) + " FPS"@
            &&& choice_of(l[12].id) == Choice::SetFps(30) && l[12].label == decimal(30) + " FPS"@
            &&& choice_of(l[13].id) == Choice::SetFps(60) && l[13].label == decimal(60) + " FPS"@
        }),
{
    let l = menu_layout(s);
    lemma_layout_lists(s);
    entries_lead_to_their_choices(0);
    entries_lead_to_their_choices(1);
    entries_lead_to_their_choices(2);
    assert(l[11].id == entry_id("f_"@, 0) && l[12].id == entry_id("f_"@, 1));
    assert(l[13].id == entry_id("f_"@, 2));
}

/// The automatic choice of an encoder is offered before those by name, and the line
/// with an encoder's name chooses it.
pub proof fn encoder_lines_choose_what_they_say(s: Settings)
    ensures
        ({
            let l = menu_layout(s);
            &&& choice_of(l[15].id) == Choice::SetEncoder(Encoder::Auto)
            &&& choice_of(l[16].id) == Choice::SetEncoder(Encoder::Nvenc)
            &&& choice_of(l[17].id) == Choice::SetEncoder(Encoder::Qsv)
            &&& choice_of(l[18].id) == Choice::SetEncoder(Encoder::Amf)
            &&& choice_of(l[19].id) == Choice::SetEncoder(Encoder::X264)
            &&& holds_word(l[15].label, "Auto"@)
            &&& holds_word(l[16].label, "NVENC"@)
            &&& holds_word(l[17].label, "QuickSync"@)
            &&& holds_word(l[18].label, "AMF"@)
            &&& holds_word(l[19].label, "x264"@)
        }),
{
    let l = menu_layout(s);
    lemma_layout_lists(s);
    labels_name_what_they_stand_for();
    entries_lead_to_their_choices(0);
    entries_lead_to_their_choices(1);
    entries_lead_to_their_choices(2);
    entries_lead_to_their_choices(3);
    entries_lead_to_their_choices(4);
    assert(l[15].id == entry_id("e_"@, 0) && l[16].id == entry_id("e_"@, 1));
    assert(l[17].id == entry_id("e_"@, 2) && l[18].id == entry_id("e_"@, 3));
    assert(l[19].id == entry_id("e_"@, 4));
    assert(l[15].label == encoder_label(Encoder::Auto));
    assert(l[16].label == encoder_label(Encoder::Nvenc));
    assert(l[17].label == encoder_label(Encoder::Qsv));
    assert(l[18].label == encoder_label(Encoder::Amf));
    assert(l[19].label == encoder_label(Encoder::X264));
}

proof fn lemma_layout_lists(s: Settings)
    ensures
        ({
            let l = menu_layout(s);
            &&& l.len() == 25
            &&& forall|i: int| 6 <= i < 10 ==> l[i] == quality_lines()[i - 6]
            &&& forall|i: int| 11 <= i < 14 ==> l[i] == fps_lines()[i - 11]
            &&& forall|i: int| 15 <= i < 20 ==> l[i] == encoder_lines()[i - 15]
            &&& l[0] == record_lines()[0] && l[1] == record_lines()[1] && l[2] == record_lines()[2]
            &&& l[20] == switch_lines(s)[0] && l[21] == switch_lines(s)[1]
            &&& l[22] == closing_lines()[0] && l[24] == closing_lines()[2]
        }),
{
}

/// The elapsed time in a tooltip reads back: from the end, two digits of seconds and
/// two of minutes, both below sixty, and the hours before them.
pub proof fn elapsed_time_reads_back(s: u64)
    ensures
        ({
            let t = tip_text(Tip::Elapsed(s));
            let n = t.len() as int;
            &&& n >= 16
            &&& t.subrange(0, 8) == "ORR REC "@
            &&& t[n - 3] == ':' && t[n - 6] == ':'
            &&& exists|hours: nat, minutes: nat, seconds: nat|
                {
                    &&& unsigned(t.subrange(8, n - 6)) == Some(hours)
                    &&& unsigned(t.subrange(n - 5, n - 3)) == Some(minutes)
                    &&& unsigned(t.subrange(n - 2, n)) == Some(seconds)
                    &&& minutes < 60
                    &&& seconds < 60
                    &&& #[trigger] second_of_day(hours, minutes, seconds) == s
                }
        }),
{
    let t = tip_text(Tip::Elapsed(s));
    let n = t.len() as int;
    let (h, m, z) = ((s / 3600) as nat, ((s % 3600) / 60) as nat, (s % 60) as nat);
    padded_number_reads_back(h, 2);
    padded_number_reads_back(m, 2);
    padded_number_reads_back(z, 2);
    padded_numbers_sort(m, 0);
    padded_numbers_sort(z, 0);
    reveal_strlit("ORR REC ");
    reveal_strlit(":");
    assert(t.subrange(0, 8) =~= "ORR REC "@);
    assert(t.subrange(8, n - 6) =~= padded(h, 2));
    assert(t.subrange(n - 5, n - 3) =~= padded(m, 2));
    assert(t.subrange(n - 2, n) =~= padded(z, 2));
    assert(second_of_day(h, m, z) == s);
}

/// While a recording runs, or a region is being picked, the menu offers no recording
/// and starts none, and no second pick; a recording can be stopped while it runs, and
/// only then.
pub proof fn one_thing_goes_on_at_a_time(s: TrayState, c: Choice, i: int)
    requires
        s.recording || s.selecting,
        0 <= i < menu_step(s, c).1.len(),
    ensures
        s.busy(),
        !(menu_step(s, c).1[i] is Record),
        !(menu_step(s, c).1[i] is Launch),
        !(menu_step(s, c).1[i] is Select),
        menu_step(s, c).1[i] is StopRecorder ==> s.recording && (c is Stop || c is Quit),
        menu_step(s, c).0.recording == s.recording,
        menu_step(s, c).0.selecting == s.selecting,
{
}

/// The folder entry shows the recordings and changes nothing.
pub proof fn folder_entry_shows_the_recordings(s: TrayState)
    ensures
        menu_step(s, choice_of("open_dir"@)).0 == s,
        menu_step(s, choice_of("open_dir"@)).1 == seq![Action::OpenFolder],
{
    menu_words_stand_for_their_choices();
}

/// An identifier beyond the lists stands for nothing, and does nothing.
pub proof fn entries_beyond_the_lists_do_nothing(s: TrayState, i: int)
    requires
        0 <= i <= u64::MAX,
    ensures
        i >= 4 ==> choice_of(entry_id("q_"@, i)) is Nothing,
        i >= 3 ==> choice_of(entry_id("f_"@, i)) is Nothing,
        i >= 5 ==> choice_of(entry_id("e_"@, i)) is Nothing,
        menu_step(s, Choice::Nothing) == (s, Seq::<Action>::empty()),
{
    reveal_strlit("q_");
    reveal_strlit("f_");
    reveal_strlit("e_");
    lemma_not_a_fixed_word("q_"@, i, 'q');
    lemma_not_a_fixed_word("f_"@, i, 'f');
    lemma_not_a_fixed_word("e_"@, i, 'e');
    lemma_entry_number("q_"@, i);
    lemma_entry_number("f_"@, i);
    lemma_entry_number("e_"@, i);
    assert(entry_id("f_"@, i).subrange(0, 2)[0] == 'f');
    assert(entry_id("e_"@, i).subrange(0, 2)[0] == 'e');
    assert("q_"@[0] == 'q');
    assert("f_"@[0] == 'f');
}

proof fn lemma_not_a_fixed_word(prefix: Seq<char>, i: int, letter: char)
    requires
        prefix.len() == 2,
        prefix[0] == letter,
        prefix[1] == '_',
        letter == 'q' || letter == 'f' || letter == 'e',
    ensures
        ({
            let id = entry_id(prefix, i);
            &&& id != "rec_full"@ && id != "rec_area"@ && id != "rec_stop"@
            &&& id != "open_dir"@ && id != "quit"@ && id != "perf"@ && id != "mouse"@
        }),
{
    reveal_strlit("rec_full");
    reveal_strlit("rec_area");
    reveal_strlit("rec_stop");
    reveal_strlit("open_dir");
    reveal_strlit("quit");
    reveal_strlit("perf");
    reveal_strlit("mouse");
    let id = entry_id(prefix, i);
    assert(id[0] == letter && id[1] == '_');
    assert("rec_full"@[1] == 'e' && "rec_area"@[1] == 'e' && "rec_stop"@[1] == 'e');
    assert("open_dir"@[1] == 'p' && "quit"@[1] == 'u' && "perf"@[1] == 'e' && "mouse"@[1] == 'o');
}

/// The menu is laid out as it reads: what records on top, the settings below it with a
/// list each of presets, frame rates and encoders, then the folder, and quitting last.
/// Before anything is recorded, recording can be begun and not stopped.
pub proof fn menu_is_laid_out_as_it_reads(s: Settings, i: int)
    requires
        0 <= i < 25,
    ensures
        ({
            let l = menu_layout(s);
            &&& l.len() == 25
            &&& l[0].enabled && l[1].enabled && !l[2].enabled
            &&& i < 3 || i == 22 || i == 24 ==> l[i].kind is Item && l[i].depth == 0
            &&& i == 3 || i == 23 ==> l[i].kind is Separator && l[i].depth == 0
            &&& i == 4 ==> l[i].kind is Submenu && l[i].depth == 0 && l[i].label == "Settings"@
            &&& i == 5 ==> l[i].kind is Submenu && l[i].depth == 1 && l[i].label == "Quality"@
            &&& i == 10 ==> l[i].kind is Submenu && l[i].depth == 1 && l[i].label == "Frame Rate"@
            &&& i == 14 ==> l[i].kind is Submenu && l[i].depth == 1 && l[i].label == "Encoder"@
            &&& 5 < i < 10 || 10 < i < 14 || 14 < i < 20 ==> l[i].kind is Check && l[i].depth == 2
                && l[i].enabled && !l[i].checked
            &&& i == 20 || i == 21 ==> l[i].kind is Check && l[i].depth == 1 && l[i].enabled
            &&& i > 21 && i != 23 ==> l[i].enabled
        }),
{
    lemma_layout_lists(s);
}

/// A problem that an outside step reported is shown in its own words.
pub proof fn reported_problem_is_shown_in_its_own_words(text: String)
    ensures
        problem_text(Problem::Other(text)) == text@,
{
}

/// The tooltip says what goes on, and a missing encoder is explained.
pub proof fn tips_say_what_goes_on()
    ensures
        holds_word(tip_text(Tip::Selecting), "select"@),
        holds_word(tip_text(Tip::Starting), "starting"@),
        holds_word(tip_text(Tip::Finalizing), "finalizing"@),
        tip_text(Tip::Idle) == "ORR Desktop Recorder"@,
        holds_word(problem_text(Problem::NoEncoder), "no usable h264 encoder"@),
{
    reveal_strlit("Drag a rectangle to select area (Esc cancels)");
    reveal_strlit("ORR starting...");
    reveal_strlit("ORR finalizing mp4...");
    reveal_strlit("no usable h264 encoder found - is ffmpeg installed and on PATH?");
    reveal_strlit("select");
    reveal_strlit("starting");
    reveal_strlit("finalizing");
    reveal_strlit("no usable h264 encoder");
    assert(tip_text(Tip::Selecting).subrange(20, 26) =~= "select"@);
    assert(tip_text(Tip::Starting).subrange(4, 12) =~= "starting"@);
    assert(tip_text(Tip::Finalizing).subrange(4, 14) =~= "finalizing"@);
    assert(problem_text(Problem::NoEncoder).subrange(0, 22) =~= "no usable h264 encoder"@);
    assert(stands_at(tip_text(Tip::Selecting), "select"@, 20));
    assert(stands_at(tip_text(Tip::Starting), "starting"@, 4));
    assert(stands_at(tip_text(Tip::Finalizing), "finalizing"@, 4));
    assert(stands_at(problem_text(Problem::NoEncoder), "no usable h264 encoder"@, 0));
}

} // verus!
