//! Light/dark switching: what the user asked for, what the OS reports, and what
//! a change in either comes to.

use vstd::prelude::*;

use crate::markdown::marks::Appearance;

verus! {

/// The user's appearance preference.
#[derive(Debug, Clone, Copy, PartialEq, Eq, Structural)]
pub enum AppearanceMode {
    /// Follow the OS. The default — matches every other native app on the
    /// machine, including when the user has macOS set to switch at sunset.
    System,
    Light,
    Dark,
}

impl Default for AppearanceMode {
    fn default() -> (mode: AppearanceMode)
        ensures
            mode == AppearanceMode::System,
    {
        AppearanceMode::System
    }
}

impl AppearanceMode {
    pub const ALL: [AppearanceMode; 3] = [
        AppearanceMode::System,
        AppearanceMode::Light,
        AppearanceMode::Dark,
    ];

    /// Menu/label text.
    pub fn label(self) -> (label: &'static str)
        ensures
            label@ == (match self {
                AppearanceMode::System => "System"@,
                AppearanceMode::Light => "Light"@,
                AppearanceMode::Dark => "Dark"@,
            }),
    {
        match self {
            AppearanceMode::System => "System",
            AppearanceMode::Light => "Light",
            AppearanceMode::Dark => "Dark",
        }
    }

    /// What a mode looks like where the OS looks like `system`.
    pub open spec fn looks(self, system: Appearance) -> Appearance {
        match self {
            AppearanceMode::System => system,
            AppearanceMode::Light => Appearance::Light,
            AppearanceMode::Dark => Appearance::Dark,
        }
    }
}

/// What is behind the current theme: what the user chose, and what the OS last
/// said.
#[derive(Debug, Clone, Copy, PartialEq, Eq, Structural)]
pub struct AppearanceState {
    pub mode: AppearanceMode,
    pub system: Appearance,
}

/// Combine the user's choice with the OS state.
pub fn resolve(mode: AppearanceMode, system: Appearance) -> (appearance: Appearance)
    ensures
        appearance == mode.looks(system),
{
    match mode {
        AppearanceMode::System => system,
        AppearanceMode::Light => Appearance::Light,
        AppearanceMode::Dark => Appearance::Dark,
    }
}

/// Whether what a window reports is the OS's own answer.
///
/// A pinned mode holds an appearance over the app — see [`sync_ns_appearance`]
/// — and from then on every window reports that override back. Only under
/// `System` is there none in the way.
pub fn reports_the_os(mode: AppearanceMode) -> (yes: bool)
    ensures
        yes == (mode == AppearanceMode::System),
{
    match mode {
        AppearanceMode::System => true,
        _ => false,
    }
}

/// The appearance AppKit is told the app's windows use, so the chrome *it*
/// draws matches the palette *we* paint. Pinned modes name the appearance
/// explicitly; `System` clears the override so AppKit follows the OS again —
/// resolving to a name there too would freeze the chrome across OS sunset
/// switches.
pub fn sync_ns_appearance(mode: AppearanceMode) -> (name: Option<&'static str>)
    ensures
        name is None <==> mode == AppearanceMode::System,
        mode == AppearanceMode::Light ==> name->0@ == "NSAppearanceNameAqua"@,
        mode == AppearanceMode::Dark ==> name->0@ == "NSAppearanceNameDarkAqua"@,
{
    match mode {
        AppearanceMode::System => None,
        AppearanceMode::Light => Some("NSAppearanceNameAqua"),
        AppearanceMode::Dark => Some("NSAppearanceNameDarkAqua"),
    }
}

/// The mode in effect, which is `System` before there is a state.
pub fn mode(state: Option<AppearanceState>) -> (mode: AppearanceMode)
    ensures
        mode == (match state {
            Some(state) => state.mode,
            None => AppearanceMode::System,
        }),
{
    match state {
        Some(state) => state.mode,
        None => AppearanceMode::default(),
    }
}

impl AppearanceState {
    pub open spec fn shown(self) -> Appearance {
        self.mode.looks(self.system)
    }

    /// The state once a mode is chosen, the OS reporting `reported` with no
    /// override over it.
    pub open spec fn chosen(self, mode: AppearanceMode, reported: Appearance) -> AppearanceState {
        AppearanceState {
            mode,
            system: if self.mode != mode && mode == AppearanceMode::System {
                reported
            } else {
                self.system
            },
        }
    }

    /// The state once a window reports an appearance.
    pub open spec fn synced(self, system: Appearance) -> AppearanceState {
        if self.mode == AppearanceMode::System {
            AppearanceState { system, ..self }
        } else {
            self
        }
    }

    /// Change the user's preference, and say whether that is a change to apply.
    /// `reported` is what the OS says with no override over it.
    ///
    /// Coming back to `System`, what the OS actually is counts: everything the
    /// platform reported while a mode was pinned was that override read back,
    /// so `system` is as stale as the moment the mode was pinned.
    pub fn set_mode(&mut self, mode: AppearanceMode, reported: Appearance) -> (changed: bool)
        ensures
            changed == (old(self).mode != mode),
            *final(self) == old(self).chosen(mode, reported),
    {
        if self.mode == mode {
            return false;
        }
        self.mode = mode;
        if mode == AppearanceMode::System {
            self.system = reported;
        }
        true
    }

    /// Record the OS appearance, and say whether it moved.
    ///
    /// Only what [`reports_the_os`] will vouch for: recording an override read
    /// back would overwrite what the OS said with what we asked for, and the
    /// first switch to `System` would resolve to the mode just left.
    pub fn sync(&mut self, system: Appearance) -> (moved: bool)
        ensures
            moved == (old(self).synced(system) != *old(self)),
            *final(self) == old(self).synced(system),
    {
        if !reports_the_os(self.mode) || self.system == system {
            return false;
        }
        self.system = system;
        true
    }

    /// The palette to install, `installed` being the one that is: none when the
    /// resolved appearance is unchanged — the OS notifies of vibrancy and
    /// accent-color changes too, and repainting every window for those would be
    /// a visible hitch for nothing.
    pub fn apply(&self, installed: Option<Appearance>) -> (wanted: Option<Appearance>)
        ensures
            wanted == (if installed == Some(self.shown()) {
                None
            } else {
                Some(self.shown())
            }),
    {
        let wanted = resolve(self.mode, self.system);
        match installed {
            Some(appearance) => if appearance == wanted {
                None
            } else {
                Some(wanted)
            },
            None => Some(wanted),
        }
    }
}

/// What is behind a window's content.
#[derive(Debug, Clone, Copy, PartialEq, Eq, Structural)]
pub enum WindowBackground {
    Opaque,
    Transparent,
    Blurred,
}

/// `wanted`, bar an opaque background on a window that draws its own frame: its
/// corners and resize band must stay unpainted, and its content paints its own
/// background.
pub fn background_for(wanted: WindowBackground, own_frame: bool) -> (background: WindowBackground)
    ensures
        background == (if wanted == WindowBackground::Opaque && own_frame {
            WindowBackground::Transparent
        } else {
            wanted
        }),
{
    match (wanted, own_frame) {
        (WindowBackground::Opaque, true) => WindowBackground::Transparent,
        _ => wanted,
    }
}

/// Windows that keep the background they opened with, by their ids.
pub struct KeepBackground {
    ids: Vec<u64>,
}

impl View for KeepBackground {
    type V = Set<u64>;

    closed spec fn view(&self) -> Set<u64> {
        self.ids@.to_set()
    }
}

impl Default for KeepBackground {
    fn default() -> (keep: KeepBackground)
        ensures
            keep@ == Set::<u64>::empty(),
    {
        let keep = KeepBackground { ids: Vec::new() };
        assert(keep@ =~= Set::<u64>::empty());
        keep
    }
}

/// Whether an id is among some.
fn among(ids: &Vec<u64>, id: u64) -> (yes: bool)
    ensures
        yes == ids@.contains(id),
{
    let mut i: usize = 0;
    while i < ids.len()
        invariant
            i <= ids@.len(),
            forall|j: int| 0 <= j < i ==> #[trigger] ids@[j] != id,
        decreases ids@.len() - i,
    {
        if ids[i] == id {
            return true;
        }
        i = i + 1;
    }
    false
}

impl KeepBackground {
    /// Leave a window's background where it is, whatever the palette says. A
    /// window that is opaque *on purpose* — a settings form the app behind it
    /// must not show through — says so here rather than being frosted by the
    /// next switch.
    pub fn keep_background(&mut self, id: u64)
        ensures
            final(self)@ == old(self)@.insert(id),
    {
        if !among(&self.ids, id) {
            let ghost before = self.ids@;
            self.ids.push(id);
            proof {
                assert forall|x: u64| self@.contains(x) <==> old(self)@.insert(id).contains(x) by {
                    if before.contains(x) {
                        let i = before.index_of(x);
                        assert(self.ids@[i] == x);
                    }
                    assert(self.ids@[before.len() as int] == id);
                }
            }
        }
        assert(self@ =~= old(self)@.insert(id));
    }

    /// The windows that the theme's background is pushed onto, of those that
    /// are open: all but the ones that asked to keep their own. The only place
    /// a closed window's id is dropped.
    pub fn reapply_window_background(&mut self, windows: &Vec<u64>) -> (pushed: Vec<u64>)
        ensures
            final(self)@ == old(self)@.filter(|id: u64| windows@.contains(id)),
            pushed@ == windows@.filter(|id: u64| !old(self)@.contains(id)),
    {
        let ghost kept = |id: u64| windows@.contains(id);
        let mut ids: Vec<u64> = Vec::new();
        let mut i: usize = 0;
        while i < self.ids.len()
            invariant
                i <= self.ids@.len(),
                self@ == old(self)@,
                self@ == self.ids@.to_set(),
                kept == (|id: u64| windows@.contains(id)),
                forall|x: u64| #[trigger]
                    ids@.contains(x) <==> (windows@.contains(x) && self.ids@.take(
                        i as int,
                    ).contains(x)),
            decreases self.ids@.len() - i,
        {
            let id = self.ids[i];
            let ghost before = ids@;
            if among(windows, id) {
                ids.push(id);
            }
            proof {
                let (was, is) = (self.ids@.take(i as int), self.ids@.take(i + 1));
                assert(is =~= was.push(id));
                assert forall|x: u64| #[trigger]
                    ids@.contains(x) <==> (windows@.contains(x) && is.contains(x)) by {
                    lemma_push_contains(was, id, x);
                    lemma_push_contains(before, id, x);
                }
            }
            i = i + 1;
        }
        assert(self.ids@.take(i as int) =~= self.ids@);
        let mut pushed: Vec<u64> = Vec::new();
        let ghost free = |id: u64| !old(self)@.contains(id);
        let mut n: usize = 0;
        assert(pushed@ =~= windows@.take(0).filter(free)) by {
            reveal(Seq::filter);
        }
        while n < windows.len()
            invariant
                n <= windows@.len(),
                self@ == old(self)@,
                self@ == self.ids@.to_set(),
                free == (|id: u64| !old(self)@.contains(id)),
                pushed@ == windows@.take(n as int).filter(free),
            decreases windows@.len() - n,
        {
            let id = windows[n];
            proof {
                reveal(Seq::filter);
                let is = windows@.take(n + 1);
                assert(is.drop_last() =~= windows@.take(n as int));
                assert(is.last() == id);
                assert(free(id) == !self.ids@.contains(id));
            }
            if !among(&self.ids, id) {
                pushed.push(id);
            }
            n = n + 1;
        }
        assert(windows@.take(n as int) =~= windows@);
        self.ids = ids;
        assert(self@ =~= old(self)@.filter(kept));
        pushed
    }
}

proof fn lemma_push_contains(ids: Seq<u64>, id: u64, x: u64)
    ensures
        ids.push(id).contains(x) <==> ids.contains(x) || x == id,
{
    let more = ids.push(id);
    assert(more[ids.len() as int] == id);
    if ids.contains(x) {
        let i = ids.index_of(x);
        assert(more[i] == x);
    }
    if more.contains(x) {
        let i = more.index_of(x);
        if i < ids.len() {
            assert(ids[i] == x);
        }
    }
}

/// A pinned mode looks the same whatever the OS says, and what its windows
/// report is not taken for the OS's answer.
pub proof fn a_pinned_mode_ignores_the_os(state: AppearanceState, reported: Appearance)
    requires
        state.mode != AppearanceMode::System,
    ensures
        state.synced(reported) == state,
        state.mode.looks(reported) == state.shown(),
{
}

/// Coming back to following the OS, what shows is what the OS says then, and
/// neither what was pinned nor what its windows reported meanwhile.
pub proof fn following_the_os_again_shows_what_it_says(
    state: AppearanceState,
    pinned: AppearanceMode,
    meanwhile: Appearance,
    reported: Appearance,
)
    requires
        pinned != AppearanceMode::System,
    ensures
        state.chosen(pinned, meanwhile).synced(meanwhile).chosen(
            AppearanceMode::System,
            reported,
        ).shown() == reported,
{
}

/// What shows is what the user asked for: light or dark where that was pinned,
/// and otherwise what the OS looks like.
pub proof fn what_shows_is_what_was_asked_for(mode: AppearanceMode, system: Appearance)
    ensures
        mode == AppearanceMode::System ==> mode.looks(system) == system,
        mode == AppearanceMode::Light ==> mode.looks(system) == Appearance::Light,
        mode == AppearanceMode::Dark ==> mode.looks(system) == Appearance::Dark,
        (AppearanceState { mode, system }).shown() == mode.looks(system),
{
}

/// A mode chosen is the mode in effect. What the OS was last known to look like
/// is kept, but where the OS is followed anew.
pub proof fn a_mode_chosen_is_in_effect(
    state: AppearanceState,
    mode: AppearanceMode,
    reported: Appearance,
)
    ensures
        state.chosen(mode, reported).mode == mode,
        mode != AppearanceMode::System ==> state.chosen(mode, reported).system == state.system,
        state.chosen(state.mode, reported) == state,
        state.mode != AppearanceMode::System && mode == AppearanceMode::System ==> state.chosen(
            mode,
            reported,
        ).system == reported,
{
}

/// While the OS is followed, what a window reports is what shows, and the mode
/// stays.
pub proof fn what_is_reported_shows_while_followed(state: AppearanceState, reported: Appearance)
    requires
        state.mode == AppearanceMode::System,
    ensures
        state.synced(reported).shown() == reported,
        state.synced(reported).system == reported,
        state.synced(reported).mode == AppearanceMode::System,
{
}

} // verus!
