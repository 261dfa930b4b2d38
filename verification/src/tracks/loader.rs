//! Which tracks of the catalog are on disk, where they lie, and the playlist
//! made of them.
use vstd::prelude::*;
use vstd::string::{StrSliceExecFns, StringExecFns};
use super::catalog::{catalog, pool_listed, track_catalog, Track, TrackPool};

verus! {

/// The path of `file` inside the directory `dir`: the two are joined by one
/// `/`, which is left out where `dir` is empty or already ends in one.
pub open spec fn join_path(dir: Seq<char>, file: Seq<char>) -> Seq<char> {
    if dir.len() == 0 {
        file
    } else if dir.last() == '/' {
        dir + file
    } else {
        dir + seq!['/'] + file
    }
}

/// The file name of a track: its slug with the extension `.mp3`.
pub open spec fn file_name_of(track: Track) -> Seq<char> {
    track.slug@ + ".mp3"@
}

/// The tracks directory and a listing of the files in it.
///
/// The listing is a snapshot: whoever reads the directory hands it over with
/// [`TrackLoader::new`] or [`TrackLoader::set_files`].
pub struct TrackLoader {
    tracks_dir: String,
    files: Vec<String>,
}

/// `rand::seq::SliceRandom::shuffle` with `rand::thread_rng()`: a run of
/// swaps inside the slice, so the same tracks come out, in an order that
/// depends on chance.
#[verifier::external_body]
fn shuffle_tracks(tracks: &mut Vec<Track>)
    ensures
        final(tracks)@.to_multiset() == old(tracks)@.to_multiset(),
        final(tracks)@.len() == old(tracks)@.len(),
{
    rand::seq::SliceRandom::shuffle(tracks.as_mut_slice(), &mut rand::thread_rng());
}

impl TrackLoader {
    /// The tracks directory.
    pub closed spec fn dir(&self) -> Seq<char> {
        self.tracks_dir@
    }

    /// The names of the files in the tracks directory.
    pub closed spec fn files(&self) -> Seq<Seq<char>> {
        self.files.deep_view()
    }

    /// Whether the file of `track` is among the listed files.
    pub open spec fn on_disk(&self, track: Track) -> bool {
        self.files().contains(file_name_of(track))
    }

    /// True of the tracks of `pools` that are on disk.
    pub open spec fn available_in(&self, pools: Seq<TrackPool>) -> spec_fn(Track) -> bool {
        |track: Track| pools.contains(track.pool) && self.on_disk(track)
    }

    /// True of the tracks of `pools` that are not on disk.
    pub open spec fn missing_in(&self, pools: Seq<TrackPool>) -> spec_fn(Track) -> bool {
        |track: Track| pools.contains(track.pool) && !self.on_disk(track)
    }

    /// A loader for the directory `tracks_dir`, in which `files` are the
    /// names of the files present.
    pub fn new(tracks_dir: String, files: Vec<String>) -> (loader: TrackLoader)
        ensures
            loader.dir() == tracks_dir@,
            loader.files() == files.deep_view(),
    {
        TrackLoader { tracks_dir, files }
    }

    /// Replaces the listing of the directory.
    pub fn set_files(&mut self, files: Vec<String>)
        ensures
            final(self).dir() == old(self).dir(),
            final(self).files() == files.deep_view(),
    {
        self.files = files;
    }

    /// The path of the track's file inside the tracks directory.
    pub fn get_track_path(&self, track: &Track) -> (path: String)
        ensures
            path@ == join_path(self.dir(), file_name_of(*track)),
    {
        let file = track.filename();
        let dir = self.tracks_dir.as_str();
        let len = dir.unicode_len();
        if len == 0 {
            assert(self.tracks_dir@ =~= Seq::<char>::empty());
            return file;
        }
        let path = self.tracks_dir.clone();
        if dir.get_char(len - 1) == '/' {
            path.concat(file.as_str())
        } else {
            proof {
                reveal_strlit("/");
                assert("/"@ =~= seq!['/']);
            }
            path.concat("/").concat(file.as_str())
        }
    }

    /// Whether the track's file is among the listed files.
    pub fn track_exists(&self, track: &Track) -> (exists: bool)
        ensures
            exists == self.on_disk(*track),
    {
        let file = track.filename();
        let mut i: usize = 0;
        while i < self.files.len()
            invariant
                i <= self.files@.len(),
                file@ == file_name_of(*track),
                self.files.deep_view().len() == self.files@.len(),
                forall|j: int| 0 <= j < i ==> self.files.deep_view()[j] != file@,
            decreases self.files@.len() - i,
        {
            assert(self.files.deep_view()[i as int] == self.files@[i as int]@);
            if self.files[i] == file {
                return true;
            }
            i = i + 1;
        }
        false
    }

    /// The tracks of `pools` that are on disk, in the order of the catalog.
    pub fn get_available_tracks_from_pools(&self, pools: &[TrackPool]) -> (tracks: Vec<Track>)
        ensures
            tracks@ == track_catalog().filter(self.available_in(pools@)),
    {
        let all = catalog();
        let mut tracks: Vec<Track> = Vec::new();
        let mut i: usize = 0;
        proof {
            reveal(Seq::filter);
            assert(all@.take(0) =~= Seq::<Track>::empty());
        }
        while i < all.len()
            invariant
                i <= all@.len(),
                all@ == track_catalog(),
                tracks@ == all@.take(i as int).filter(self.available_in(pools@)),
            decreases all@.len() - i,
        {
            let track = all[i];
            proof {
                reveal(Seq::filter);
                assert(all@.take(i + 1).drop_last() =~= all@.take(i as int));
                assert(all@.take(i + 1).last() == track);
            }
            if pool_listed(pools, track.pool) && self.track_exists(&track) {
                tracks.push(track);
            }
            i = i + 1;
        }
        assert(all@.take(all@.len() as int) =~= all@);
        tracks
    }

    /// The tracks of `pools` that are not on disk, in the order of the
    /// catalog.
    pub fn get_missing_tracks_from_pools(&self, pools: &[TrackPool]) -> (tracks: Vec<Track>)
        ensures
            tracks@ == track_catalog().filter(self.missing_in(pools@)),
    {
        let all = catalog();
        let mut tracks: Vec<Track> = Vec::new();
        let mut i: usize = 0;
        proof {
            reveal(Seq::filter);
            assert(all@.take(0) =~= Seq::<Track>::empty());
        }
        while i < all.len()
            invariant
                i <= all@.len(),
                all@ == track_catalog(),
                tracks@ == all@.take(i as int).filter(self.missing_in(pools@)),
            decreases all@.len() - i,
        {
            let track = all[i];
            proof {
                reveal(Seq::filter);
                assert(all@.take(i + 1).drop_last() =~= all@.take(i as int));
                assert(all@.take(i + 1).last() == track);
            }
            if pool_listed(pools, track.pool) && !self.track_exists(&track) {
                tracks.push(track);
            }
            i = i + 1;
        }
        assert(all@.take(all@.len() as int) =~= all@);
        tracks
    }

    /// The playlist of `pools`: the tracks that are on disk, in the order of
    /// the catalog or, where `shuffle` is set, in an order left to chance.
    pub fn create_playlist(&self, pools: &[TrackPool], shuffle: bool) -> (tracks: Vec<Track>)
        ensures
            tracks@.to_multiset() == track_catalog().filter(
                self.available_in(pools@),
            ).to_multiset(),
            tracks@.len() == track_catalog().filter(self.available_in(pools@)).len(),
            !shuffle ==> tracks@ == track_catalog().filter(self.available_in(pools@)),
    {
        let mut tracks = self.get_available_tracks_from_pools(pools);
        if shuffle {
            shuffle_tracks(&mut tracks);
        }
        tracks
    }
}

} // verus!
