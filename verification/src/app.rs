//! The state of the player as the listener steers it: the preset, the
//! choice of another preset, the playlist and the track that plays.
use vstd::prelude::*;
use vstd::string::StringExecFns;
use crate::text::{two_digit_text, two_digits};
use crate::presets::{
    all_presets, find_preset, is_preset_at, preset_index, preset_names, preset_pools, Preset,
};
use crate::tracks::catalog::{track_catalog, Track, TrackPool};
use crate::tracks::loader::TrackLoader;

verus! {

/// A key, as far as the player tells keys apart.
#[derive(Clone, Copy, Debug, PartialEq, Eq, Structural)]
pub enum Key {
    Char(char),
    Esc,
    Enter,
    Left,
    Right,
    Up,
    Down,
    Other,
}

/// What is to be done after a key, beyond the change of state.
#[derive(Clone, Copy, Debug, PartialEq, Eq, Structural)]
pub enum Command {
    /// Nothing.
    Nothing,
    /// Pause playback or end the pause.
    TogglePause,
    /// Stop the current track and load the next one.
    SkipTrack,
    /// Open the page on which the composer can be supported.
    OpenSupportUrl,
    /// Raise the volume by one step.
    VolumeUp,
    /// Lower the volume by one step.
    VolumeDown,
    /// Take the preset that is selected.
    ConfirmPreset,
}

/// What follows from taking the selected preset.
pub enum PresetChange {
    /// The selected preset is the current one.
    Unchanged,
    /// No track of the selected preset is on disk: it waits until one has
    /// been fetched from these pools.
    Download(Vec<TrackPool>),
    /// The selected preset is now the current one and has a new playlist:
    /// stop the current track, load the next one and fetch the rest of these
    /// pools.
    Switched(Vec<TrackPool>),
}

/// The place after `index` among `count` places, going round.
pub open spec fn next_place(index: int, count: int) -> int {
    if index + 1 < count {
        index + 1
    } else {
        0
    }
}

/// The place before `index` among `count` places, going round.
pub open spec fn previous_place(index: int, count: int) -> int {
    if index > 0 {
        index - 1
    } else {
        count - 1
    }
}

/// True of the keys that quit the player, or leave the choice of a preset.
pub open spec fn is_leave_key(key: Key) -> bool {
    key == Key::Esc || key == Key::Char('q')
}

/// The command of a key while no preset is being chosen.
pub open spec fn command_of(key: Key, control: bool) -> Command {
    match key {
        Key::Char(' ') => Command::TogglePause,
        Key::Char('n') => Command::SkipTrack,
        Key::Char('s') => Command::OpenSupportUrl,
        Key::Char('+') | Key::Char('=') | Key::Char(']') | Key::Up => Command::VolumeUp,
        Key::Char('-') | Key::Char('_') | Key::Char('[') | Key::Down => Command::VolumeDown,
        _ => Command::Nothing,
    }
}

/// True of the keys that end the player while no preset is being chosen.
pub open spec fn is_quit_key(key: Key, control: bool) -> bool {
    is_leave_key(key) || (key == Key::Char('c') && control)
}

/// The state of the player.
pub struct App {
    presets: Vec<Preset>,
    preset: usize,
    selecting_preset: bool,
    selected_preset_idx: usize,
    pending_preset: Option<usize>,
    playlist: Vec<Track>,
    playlist_index: usize,
    current_track: Option<Track>,
    running: bool,
}

impl App {
    #[verifier::type_invariant]
    spec fn well_formed(self) -> bool {
        &&& self.presets@.len() == preset_names().len()
        &&& forall|i: int| 0 <= i < self.presets@.len() ==> is_preset_at(#[trigger] self.presets@[i], i)
        &&& self.preset < self.presets@.len()
        &&& self.selected_preset_idx < self.presets@.len()
        &&& self.pending_preset matches Some(pending) ==> pending < self.presets@.len()
        &&& self.playlist_index <= self.playlist@.len()
        &&& self.playlist@.len() > 0 ==> self.playlist_index < self.playlist@.len()
    }

    /// The place of the current preset.
    pub closed spec fn spec_preset(&self) -> int {
        self.preset as int
    }

    /// Whether a preset is being chosen.
    pub closed spec fn spec_selecting(&self) -> bool {
        self.selecting_preset
    }

    /// The place of the preset that is selected.
    pub closed spec fn spec_selected(&self) -> int {
        self.selected_preset_idx as int
    }

    /// The place of the preset that waits for its first track.
    pub closed spec fn spec_pending(&self) -> Option<int> {
        match self.pending_preset {
            Some(pending) => Some(pending as int),
            None => None,
        }
    }

    /// The playlist.
    pub closed spec fn spec_playlist(&self) -> Seq<Track> {
        self.playlist@
    }

    /// The place in the playlist of the track that is loaded next.
    pub closed spec fn spec_playlist_index(&self) -> int {
        self.playlist_index as int
    }

    /// The track that was loaded last.
    pub closed spec fn spec_current_track(&self) -> Option<Track> {
        self.current_track
    }

    /// Whether the player goes on.
    pub closed spec fn spec_running(&self) -> bool {
        self.running
    }

    /// The places are places of the table of presets, and the playlist index
    /// is a place of the playlist. This holds of every state.
    pub open spec fn in_bounds(&self) -> bool {
        &&& 0 <= self.spec_preset() < preset_names().len()
        &&& 0 <= self.spec_selected() < preset_names().len()
        &&& self.spec_pending() matches Some(pending) ==> 0 <= pending < preset_names().len()
        &&& 0 <= self.spec_playlist_index() <= self.spec_playlist().len()
        &&& self.spec_playlist().len() > 0 ==> self.spec_playlist_index()
            < self.spec_playlist().len()
    }

    /// The state at the start: the preset called `preset_name`, or the first
    /// preset where there is none of that name; nothing chosen, nothing
    /// loaded, running.
    pub fn new(preset_name: &str) -> (app: App)
        ensures
            app.in_bounds(),
            app.spec_preset() == match preset_index(preset_name@) {
                Some(index) => index,
                None => 0,
            },
            app.spec_selected() == app.spec_preset(),
            !app.spec_selecting(),
            app.spec_pending() is None,
            app.spec_playlist() == Seq::<Track>::empty(),
            app.spec_playlist_index() == 0,
            app.spec_current_track() is None,
            app.spec_running(),
    {
        let presets = all_presets();
        let found: usize = match find_preset(&presets, preset_name) {
            Some(index) => index,
            None => 0,
        };
        App {
            presets,
            preset: found,
            selecting_preset: false,
            selected_preset_idx: found,
            pending_preset: None,
            playlist: Vec::new(),
            playlist_index: 0,
            current_track: None,
            running: true,
        }
    }

    /// The current preset.
    pub fn preset(&self) -> (preset: &Preset)
        ensures
            is_preset_at(*preset, self.spec_preset()),
    {
        proof {
            use_type_invariant(self);
        }
        &self.presets[self.preset]
    }

    /// All presets, in the order in which they are offered.
    pub fn all_presets(&self) -> (presets: &Vec<Preset>)
        ensures
            presets@.len() == preset_names().len(),
            forall|i: int| 0 <= i < presets@.len() ==> is_preset_at(#[trigger] presets@[i], i),
    {
        proof {
            use_type_invariant(self);
        }
        &self.presets
    }

    /// The place of the preset that is selected.
    pub fn selected_preset_index(&self) -> (index: usize)
        ensures
            index == self.spec_selected(),
            index < preset_names().len(),
    {
        proof {
            use_type_invariant(self);
        }
        self.selected_preset_idx
    }

    /// Whether a preset is being chosen.
    pub fn is_selecting_preset(&self) -> (selecting: bool)
        ensures
            selecting == self.spec_selecting(),
    {
        self.selecting_preset
    }

    /// The name of the preset that waits for its first track.
    pub fn pending_preset(&self) -> (name: Option<&'static str>)
        ensures
            match self.spec_pending() {
                Some(pending) => name == Some(preset_names()[pending]),
                None => name is None,
            },
    {
        proof {
            use_type_invariant(self);
        }
        match self.pending_preset {
            Some(pending) => {
                assert(is_preset_at(self.presets@[pending as int], pending as int));
                Some(self.presets[pending].name)
            },
            None => None,
        }
    }

    /// The track that was loaded last.
    pub fn current_track(&self) -> (track: Option<Track>)
        ensures
            track == self.spec_current_track(),
    {
        self.current_track
    }

    /// Whether the player goes on.
    pub fn is_running(&self) -> (running: bool)
        ensures
            running == self.spec_running(),
    {
        self.running
    }

    /// Whether a track of `preset` is on disk.
    pub fn preset_has_tracks(&self, loader: &TrackLoader, preset: &Preset) -> (has: bool)
        ensures
            has == (track_catalog().filter(loader.available_in(preset.pools@)).len() > 0),
    {
        loader.get_available_tracks_from_pools(preset.pools.as_slice()).len() > 0
    }

    /// Takes a key.
    ///
    /// While a preset is being chosen, the keys move the selection round the
    /// presets, take it, or leave the choice and put the selection back on
    /// the current preset. Else the keys quit, open the choice of a preset, or
    /// give a command. The playlist and the preset stay as they are.
    pub fn handle_key(&mut self, key: Key, control: bool) -> (command: Command)
        ensures
            final(self).in_bounds(),
            final(self).spec_preset() == old(self).spec_preset(),
            final(self).spec_pending() == old(self).spec_pending(),
            final(self).spec_playlist() == old(self).spec_playlist(),
            final(self).spec_playlist_index() == old(self).spec_playlist_index(),
            final(self).spec_current_track() == old(self).spec_current_track(),
            old(self).spec_selecting() ==> {
                &&& final(self).spec_running() == old(self).spec_running()
                &&& final(self).spec_selecting() == !is_leave_key(key)
                &&& command == if key == Key::Enter {
                    Command::ConfirmPreset
                } else {
                    Command::Nothing
                }
                &&& final(self).spec_selected() == if is_leave_key(key) {
                    old(self).spec_preset()
                } else if key == Key::Char('j') || key == Key::Left {
                    previous_place(old(self).spec_selected(), preset_names().len() as int)
                } else if key == Key::Char('k') || key == Key::Right || key == Key::Char('p') {
                    next_place(old(self).spec_selected(), preset_names().len() as int)
                } else {
                    old(self).spec_selected()
                }
            },
            !old(self).spec_selecting() ==> {
                &&& final(self).spec_selected() == old(self).spec_selected()
                &&& final(self).spec_running() == (old(self).spec_running() && !is_quit_key(
                    key,
                    control,
                ))
                &&& final(self).spec_selecting() == (!is_quit_key(key, control) && key
                    == Key::Char('p'))
                &&& command == if is_quit_key(key, control) {
                    Command::Nothing
                } else {
                    command_of(key, control)
                }
            },
    {
        proof {
            use_type_invariant(&*self);
        }
        let count = self.presets.len();
        if self.selecting_preset {
            match key {
                Key::Esc | Key::Char('q') => {
                    self.selecting_preset = false;
                    self.selected_preset_idx = self.preset;
                    Command::Nothing
                },
                Key::Enter => Command::ConfirmPreset,
                Key::Char('j') | Key::Left => {
                    if self.selected_preset_idx > 0 {
                        self.selected_preset_idx = self.selected_preset_idx - 1;
                    } else {
                        self.selected_preset_idx = count - 1;
                    }
                    Command::Nothing
                },
                Key::Char('k') | Key::Right | Key::Char('p') => {
                    if self.selected_preset_idx + 1 < count {
                        self.selected_preset_idx = self.selected_preset_idx + 1;
                    } else {
                        self.selected_preset_idx = 0;
                    }
                    Command::Nothing
                },
                _ => Command::Nothing,
            }
        } else {
            match key {
                Key::Char('q') | Key::Esc => {
                    self.running = false;
                    Command::Nothing
                },
                Key::Char('c') if control => {
                    self.running = false;
                    Command::Nothing
                },
                Key::Char(' ') => Command::TogglePause,
                Key::Char('p') => {
                    self.selecting_preset = true;
                    Command::Nothing
                },
                Key::Char('n') => Command::SkipTrack,
                Key::Char('s') => Command::OpenSupportUrl,
                Key::Char('+') | Key::Char('=') | Key::Char(']') | Key::Up => Command::VolumeUp,
                Key::Char('-') | Key::Char('_') | Key::Char('[') | Key::Down => Command::VolumeDown,
                _ => Command::Nothing,
            }
        }
    }

    /// The tracks that the current preset can play: those of its pools that
    /// are on disk, in the order of the catalog.
    pub open spec fn playable(&self, loader: &TrackLoader) -> Seq<Track> {
        track_catalog().filter(loader.available_in(preset_pools()[self.spec_preset()]))
    }

    /// Makes a new playlist of the tracks of the current preset that are on
    /// disk, in an order left to chance, and starts at its first track.
    pub fn create_playlist(&mut self, loader: &TrackLoader)
        ensures
            final(self).in_bounds(),
            final(self).spec_playlist().to_multiset() == old(self).playable(loader).to_multiset(),
            final(self).spec_playlist().len() == old(self).playable(loader).len(),
            final(self).spec_playlist_index() == 0,
            final(self).spec_preset() == old(self).spec_preset(),
            final(self).spec_selected() == old(self).spec_selected(),
            final(self).spec_selecting() == old(self).spec_selecting(),
            final(self).spec_pending() == old(self).spec_pending(),
            final(self).spec_current_track() == old(self).spec_current_track(),
            final(self).spec_running() == old(self).spec_running(),
    {
        proof {
            use_type_invariant(&*self);
            assert(is_preset_at(self.presets@[self.preset as int], self.preset as int));
        }
        let playlist = loader.create_playlist(self.presets[self.preset].pools.as_slice(), true);
        self.playlist_index = 0;
        self.playlist = playlist;
    }

    /// Chooses the track to load next and moves on in the playlist.
    ///
    /// An empty playlist is made anew first; where no track is on disk, there
    /// is nothing to load. Else the track at the playlist index is the one,
    /// and the index moves on; after the last track a new playlist is made.
    pub fn load_next_track(&mut self, loader: &TrackLoader) -> (track: Option<Track>)
        ensures
            final(self).in_bounds(),
            final(self).spec_preset() == old(self).spec_preset(),
            final(self).spec_selected() == old(self).spec_selected(),
            final(self).spec_selecting() == old(self).spec_selecting(),
            final(self).spec_pending() == old(self).spec_pending(),
            final(self).spec_running() == old(self).spec_running(),
            ({
                let playlist = old(self).spec_playlist();
                let index = old(self).spec_playlist_index();
                let playable = old(self).playable(loader);
                let new_playlist = final(self).spec_playlist();
                let new_index = final(self).spec_playlist_index();
                &&& track is None <==> playlist.len() == 0 && playable.len() == 0
                &&& track is None ==> new_playlist.len() == 0 && final(self).spec_current_track()
                    == old(self).spec_current_track()
                &&& track is Some ==> final(self).spec_current_track() == track
                &&& playlist.len() > 0 ==> track == Some(playlist[index])
                &&& index + 1 < playlist.len() ==> new_playlist == playlist && new_index == index
                    + 1
                &&& playlist.len() > 0 && index + 1 == playlist.len() ==> new_index == 0
                    && new_playlist.to_multiset() == playable.to_multiset()
                &&& playlist.len() == 0 && track is Some ==> playable.contains(track->0)
                    && new_playlist.to_multiset() == playable.to_multiset() && (playable.len() > 1
                    ==> new_index == 1 && new_playlist[0] == track->0) && (playable.len() == 1
                    ==> new_index == 0)
            }),
    {
        proof {
            use_type_invariant(&*self);
        }
        let ghost playable = self.playable(loader);
        if self.playlist.len() == 0 {
            self.create_playlist(loader);
            proof {
                use_type_invariant(&*self);
            }
        }
        if self.playlist.len() == 0 {
            return None;
        }
        let track = self.playlist[self.playlist_index];
        proof {
            if old(self).spec_playlist().len() == 0 {
                self.playlist@.to_multiset_ensures();
                playable.to_multiset_ensures();
                assert(self.playlist@[self.playlist_index as int] == track);
                assert(self.playlist@.contains(track));
                assert(self.playlist@.to_multiset().count(track) > 0);
                assert(playable.to_multiset().count(track) > 0);
                assert(playable.contains(track));
            }
        }
        let next = self.playlist_index + 1;
        if next < self.playlist.len() {
            self.playlist_index = next;
        } else {
            self.create_playlist(loader);
            proof {
                use_type_invariant(&*self);
            }
        }
        self.current_track = Some(track);
        Some(track)
    }

    /// The tracks of the preset at `index` that are on disk.
    pub open spec fn tracks_of(loader: &TrackLoader, index: int) -> Seq<Track> {
        track_catalog().filter(loader.available_in(preset_pools()[index]))
    }

    /// Takes the selected preset and ends the choice.
    ///
    /// The current preset stays where it is selected again. A preset without
    /// a track on disk waits: it becomes the pending preset. Any other
    /// preset becomes the current one, with a new playlist, and nothing is
    /// pending any more.
    pub fn confirm_preset_selection(&mut self, loader: &TrackLoader) -> (change: PresetChange)
        ensures
            final(self).in_bounds(),
            !final(self).spec_selecting(),
            final(self).spec_selected() == old(self).spec_selected(),
            final(self).spec_running() == old(self).spec_running(),
            final(self).spec_current_track() == old(self).spec_current_track(),
            ({
                let selected = old(self).spec_selected();
                let waits = App::tracks_of(loader, selected).len() == 0;
                if selected == old(self).spec_preset() {
                    &&& change is Unchanged
                    &&& final(self).spec_preset() == old(self).spec_preset()
                    &&& final(self).spec_pending() == old(self).spec_pending()
                    &&& final(self).spec_playlist() == old(self).spec_playlist()
                    &&& final(self).spec_playlist_index() == old(self).spec_playlist_index()
                } else if waits {
                    &&& change matches PresetChange::Download(pools) && pools@ == preset_pools()[selected]
                    &&& final(self).spec_preset() == old(self).spec_preset()
                    &&& final(self).spec_pending() == Some(selected)
                    &&& final(self).spec_playlist() == old(self).spec_playlist()
                    &&& final(self).spec_playlist_index() == old(self).spec_playlist_index()
                } else {
                    &&& change matches PresetChange::Switched(pools) && pools@ == preset_pools()[selected]
                    &&& final(self).spec_preset() == selected
                    &&& final(self).spec_pending() is None
                    &&& final(self).spec_playlist().to_multiset() == App::tracks_of(
                        loader,
                        selected,
                    ).to_multiset()
                    &&& final(self).spec_playlist_index() == 0
                }
            }),
    {
        proof {
            use_type_invariant(&*self);
        }
        self.selecting_preset = false;
        let selected = self.selected_preset_idx;
        if selected == self.preset {
            return PresetChange::Unchanged;
        }
        assert(is_preset_at(self.presets@[selected as int], selected as int));
        let pools = vstd::slice::slice_to_vec(self.presets[selected].pools.as_slice());
        let available = loader.get_available_tracks_from_pools(pools.as_slice());
        if available.len() == 0 {
            self.pending_preset = Some(selected);
            return PresetChange::Download(pools);
        }
        self.preset = selected;
        self.pending_preset = None;
        self.create_playlist(loader);
        PresetChange::Switched(pools)
    }

    /// Looks whether the pending preset has a track on disk by now, and
    /// makes it the current preset if so, with a new playlist. Returns
    /// whether it did.
    pub fn check_pending_preset(&mut self, loader: &TrackLoader) -> (switched: bool)
        ensures
            final(self).in_bounds(),
            final(self).spec_selecting() == old(self).spec_selecting(),
            final(self).spec_running() == old(self).spec_running(),
            final(self).spec_current_track() == old(self).spec_current_track(),
            switched == (old(self).spec_pending() matches Some(pending) && App::tracks_of(
                loader,
                pending,
            ).len() > 0),
            !switched ==> {
                &&& final(self).spec_preset() == old(self).spec_preset()
                &&& final(self).spec_selected() == old(self).spec_selected()
                &&& final(self).spec_pending() == old(self).spec_pending()
                &&& final(self).spec_playlist() == old(self).spec_playlist()
                &&& final(self).spec_playlist_index() == old(self).spec_playlist_index()
            },
            switched ==> {
                &&& Some(final(self).spec_preset()) == old(self).spec_pending()
                &&& final(self).spec_selected() == final(self).spec_preset()
                &&& final(self).spec_pending() is None
                &&& final(self).spec_playlist().to_multiset() == App::tracks_of(
                    loader,
                    final(self).spec_preset(),
                ).to_multiset()
                &&& final(self).spec_playlist_index() == 0
            },
    {
        proof {
            use_type_invariant(&*self);
        }
        match self.pending_preset {
            None => false,
            Some(pending) => {
                assert(is_preset_at(self.presets@[pending as int], pending as int));
                let available = loader.get_available_tracks_from_pools(
                    self.presets[pending].pools.as_slice(),
                );
                if available.len() == 0 {
                    false
                } else {
                    self.preset = pending;
                    self.pending_preset = None;
                    self.selected_preset_idx = pending;
                    self.create_playlist(loader);
                    true
                }
            },
        }
    }

    /// Time played, as hours, minutes and seconds of two digits each, with
    /// colons between: `01:02:03`. From a hundred hours on the hours take the
    /// digits they need.
    pub fn elapsed_time(seconds: u64) -> (text: String)
        ensures
            text@ == elapsed_text(seconds as nat),
    {
        let hours = seconds / 3600;
        let minutes = (seconds % 3600) / 60;
        let rest = seconds % 60;
        proof {
            reveal_strlit(":");
            assert(":"@ =~= seq![':']);
        }
        let text = two_digits(hours).concat(":").concat(two_digits(minutes).as_str()).concat(
            ":",
        ).concat(two_digits(rest).as_str());
        text
    }
}

/// A time in seconds as hours, minutes and seconds with colons between.
pub open spec fn elapsed_text(seconds: nat) -> Seq<char> {
    two_digit_text(seconds / 3600) + seq![':'] + two_digit_text((seconds % 3600) / 60) + seq![':']
        + two_digit_text(seconds % 60)
}

} // verus!
