//! The catalog of tracks and the pools they belong to.
use vstd::prelude::*;
use vstd::string::StringExecFns;

verus! {

/// A pool of tracks of one mood.
#[derive(Debug, Clone, Copy, PartialEq, Eq, Hash, Structural)]
pub enum TrackPool {
    CalmFocus,
    Atmospheric,
    GentleMovement,
}

/// One track of the catalog.
#[derive(Debug, Clone, Copy)]
pub struct Track {
    /// The title shown to the listener.
    pub name: &'static str,
    /// The name of the track in file names.
    pub slug: &'static str,
    /// The pool the track belongs to.
    pub pool: TrackPool,
    /// Where the track can be fetched from.
    pub download_url: &'static str,
}

impl Track {
    /// The name of the track's file: its slug with the extension `.mp3`.
    pub fn filename(&self) -> (name: String)
        ensures
            name@ == self.slug@ + ".mp3"@,
    {
        String::from_str(self.slug).concat(".mp3")
    }
}

/// The catalog: every track, pool by pool.
pub open spec fn track_catalog() -> Seq<Track> {
    seq![
        Track {
            name: "Permafrost",
            slug: "permafrost",
            pool: TrackPool::CalmFocus,
            download_url: "https://www.scottbuckley.com.au/library/wp-content/uploads/2022/08/Permafrost.mp3",
        },
        Track {
            name: "Petrichor",
            slug: "petrichor",
            pool: TrackPool::CalmFocus,
            download_url: "https://www.scottbuckley.com.au/library/wp-content/uploads/2019/05/sb_petrichor.mp3",
        },
        Track {
            name: "Borealis",
            slug: "borealis",
            pool: TrackPool::CalmFocus,
            download_url: "https://www.scottbuckley.com.au/library/wp-content/uploads/2019/09/sb_borealis.mp3",
        },
        Track {
            name: "She Moved Mountains",
            slug: "she-moved-mountains",
            pool: TrackPool::CalmFocus,
            download_url: "https://www.scottbuckley.com.au/library/wp-content/uploads/2014/07/sb_shemovedmountains.mp3",
        },
        Track {
            name: "Reverie",
            slug: "reverie",
            pool: TrackPool::CalmFocus,
            download_url: "https://www.scottbuckley.com.au/library/wp-content/uploads/2020/03/sb_reverie.mp3",
        },
        Track {
            name: "Cobalt",
            slug: "cobalt",
            pool: TrackPool::CalmFocus,
            download_url: "https://www.scottbuckley.com.au/library/wp-content/uploads/2017/11/sb_cobalt.mp3",
        },
        Track {
            name: "Life Is",
            slug: "life-is",
            pool: TrackPool::CalmFocus,
            download_url: "https://www.scottbuckley.com.au/library/wp-content/uploads/2017/10/sb_lifeis.mp3",
        },
        Track {
            name: "Shadows and Dust",
            slug: "shadows-and-dust",
            pool: TrackPool::Atmospheric,
            download_url: "https://www.scottbuckley.com.au/library/wp-content/uploads/2023/11/ShadowsAndDust.mp3",
        },
        Track {
            name: "Decoherence",
            slug: "decoherence",
            pool: TrackPool::Atmospheric,
            download_url: "https://www.scottbuckley.com.au/library/wp-content/uploads/2022/03/sb_decoherence.mp3",
        },
        Track {
            name: "Aurora",
            slug: "aurora",
            pool: TrackPool::Atmospheric,
            download_url: "https://www.scottbuckley.com.au/library/wp-content/uploads/2021/10/Aurora.mp3",
        },
        Track {
            name: "Hymn to the Dawn",
            slug: "hymn-to-the-dawn",
            pool: TrackPool::Atmospheric,
            download_url: "https://www.scottbuckley.com.au/library/wp-content/uploads/2022/11/HymnToTheDawn.mp3",
        },
        Track {
            name: "Cirrus",
            slug: "cirrus",
            pool: TrackPool::Atmospheric,
            download_url: "https://www.scottbuckley.com.au/library/wp-content/uploads/2023/03/Cirrus.mp3",
        },
        Track {
            name: "Meanwhile",
            slug: "meanwhile",
            pool: TrackPool::Atmospheric,
            download_url: "https://www.scottbuckley.com.au/library/wp-content/uploads/2025/01/Meanwhile.mp3",
        },
        Track {
            name: "Cicadas",
            slug: "cicadas",
            pool: TrackPool::GentleMovement,
            download_url: "https://www.scottbuckley.com.au/library/wp-content/uploads/2023/12/Cicadas.mp3",
        },
        Track {
            name: "Effervescence",
            slug: "effervescence",
            pool: TrackPool::GentleMovement,
            download_url: "https://www.scottbuckley.com.au/library/wp-content/uploads/2023/07/Effervescence.mp3",
        },
        Track {
            name: "Golden Hour",
            slug: "golden-hour",
            pool: TrackPool::GentleMovement,
            download_url: "https://www.scottbuckley.com.au/library/wp-content/uploads/2023/02/GoldenHour.mp3",
        },
        Track {
            name: "Castles in the Sky",
            slug: "castles-in-the-sky",
            pool: TrackPool::GentleMovement,
            download_url: "https://www.scottbuckley.com.au/library/wp-content/uploads/2021/11/sb_castlesinthesky.mp3",
        },
        Track {
            name: "First Snow",
            slug: "first-snow",
            pool: TrackPool::GentleMovement,
            download_url: "https://www.scottbuckley.com.au/library/wp-content/uploads/2022/12/FirstSnow.mp3",
        },
        Track {
            name: "Snowfall",
            slug: "snowfall",
            pool: TrackPool::GentleMovement,
            download_url: "https://www.scottbuckley.com.au/library/wp-content/uploads/2018/12/sb_snowfall.mp3",
        },
    ]
}

/// The catalog as a vector.
pub fn catalog() -> (tracks: Vec<Track>)
    ensures
        tracks@ == track_catalog(),
{
    let tracks = vec![
        Track {
            name: "Permafrost",
            slug: "permafrost",
            pool: TrackPool::CalmFocus,
            download_url: "https://www.scottbuckley.com.au/library/wp-content/uploads/2022/08/Permafrost.mp3",
        },
        Track {
            name: "Petrichor",
            slug: "petrichor",
            pool: TrackPool::CalmFocus,
            download_url: "https://www.scottbuckley.com.au/library/wp-content/uploads/2019/05/sb_petrichor.mp3",
        },
        Track {
            name: "Borealis",
            slug: "borealis",
            pool: TrackPool::CalmFocus,
            download_url: "https://www.scottbuckley.com.au/library/wp-content/uploads/2019/09/sb_borealis.mp3",
        },
        Track {
            name: "She Moved Mountains",
            slug: "she-moved-mountains",
            pool: TrackPool::CalmFocus,
            download_url: "https://www.scottbuckley.com.au/library/wp-content/uploads/2014/07/sb_shemovedmountains.mp3",
        },
        Track {
            name: "Reverie",
            slug: "reverie",
            pool: TrackPool::CalmFocus,
            download_url: "https://www.scottbuckley.com.au/library/wp-content/uploads/2020/03/sb_reverie.mp3",
        },
        Track {
            name: "Cobalt",
            slug: "cobalt",
            pool: TrackPool::CalmFocus,
            download_url: "https://www.scottbuckley.com.au/library/wp-content/uploads/2017/11/sb_cobalt.mp3",
        },
        Track {
            name: "Life Is",
            slug: "life-is",
            pool: TrackPool::CalmFocus,
            download_url: "https://www.scottbuckley.com.au/library/wp-content/uploads/2017/10/sb_lifeis.mp3",
        },
        Track {
            name: "Shadows and Dust",
            slug: "shadows-and-dust",
            pool: TrackPool::Atmospheric,
            download_url: "https://www.scottbuckley.com.au/library/wp-content/uploads/2023/11/ShadowsAndDust.mp3",
        },
        Track {
            name: "Decoherence",
            slug: "decoherence",
            pool: TrackPool::Atmospheric,
            download_url: "https://www.scottbuckley.com.au/library/wp-content/uploads/2022/03/sb_decoherence.mp3",
        },
        Track {
            name: "Aurora",
            slug: "aurora",
            pool: TrackPool::Atmospheric,
            download_url: "https://www.scottbuckley.com.au/library/wp-content/uploads/2021/10/Aurora.mp3",
        },
        Track {
            name: "Hymn to the Dawn",
            slug: "hymn-to-the-dawn",
            pool: TrackPool::Atmospheric,
            download_url: "https://www.scottbuckley.com.au/library/wp-content/uploads/2022/11/HymnToTheDawn.mp3",
        },
        Track {
            name: "Cirrus",
            slug: "cirrus",
            pool: TrackPool::Atmospheric,
            download_url: "https://www.scottbuckley.com.au/library/wp-content/uploads/2023/03/Cirrus.mp3",
        },
        Track {
            name: "Meanwhile",
            slug: "meanwhile",
            pool: TrackPool::Atmospheric,
            download_url: "https://www.scottbuckley.com.au/library/wp-content/uploads/2025/01/Meanwhile.mp3",
        },
        Track {
            name: "Cicadas",
            slug: "cicadas",
            pool: TrackPool::GentleMovement,
            download_url: "https://www.scottbuckley.com.au/library/wp-content/uploads/2023/12/Cicadas.mp3",
        },
        Track {
            name: "Effervescence",
            slug: "effervescence",
            pool: TrackPool::GentleMovement,
            download_url: "https://www.scottbuckley.com.au/library/wp-content/uploads/2023/07/Effervescence.mp3",
        },
        Track {
            name: "Golden Hour",
            slug: "golden-hour",
            pool: TrackPool::GentleMovement,
            download_url: "https://www.scottbuckley.com.au/library/wp-content/uploads/2023/02/GoldenHour.mp3",
        },
        Track {
            name: "Castles in the Sky",
            slug: "castles-in-the-sky",
            pool: TrackPool::GentleMovement,
            download_url: "https://www.scottbuckley.com.au/library/wp-content/uploads/2021/11/sb_castlesinthesky.mp3",
        },
        Track {
            name: "First Snow",
            slug: "first-snow",
            pool: TrackPool::GentleMovement,
            download_url: "https://www.scottbuckley.com.au/library/wp-content/uploads/2022/12/FirstSnow.mp3",
        },
        Track {
            name: "Snowfall",
            slug: "snowfall",
            pool: TrackPool::GentleMovement,
            download_url: "https://www.scottbuckley.com.au/library/wp-content/uploads/2018/12/sb_snowfall.mp3",
        },
    ];
    assert(tracks@ =~= track_catalog());
    tracks
}

/// True of the tracks whose pool is one of `pools`.
pub open spec fn in_pools(pools: Seq<TrackPool>) -> spec_fn(Track) -> bool {
    |track: Track| pools.contains(track.pool)
}

/// Whether `pool` is one of `pools`.
pub fn pool_listed(pools: &[TrackPool], pool: TrackPool) -> (listed: bool)
    ensures
        listed == pools@.contains(pool),
{
    let mut i: usize = 0;
    while i < pools.len()
        invariant
            i <= pools@.len(),
            forall|j: int| 0 <= j < i ==> pools@[j] != pool,
        decreases pools@.len() - i,
    {
        if pools[i] == pool {
            return true;
        }
        i = i + 1;
    }
    false
}

/// The tracks of the catalog that belong to one of `pools`, in the order of
/// the catalog.
pub fn get_tracks_by_pools(pools: &[TrackPool]) -> (tracks: Vec<Track>)
    ensures
        tracks@ == track_catalog().filter(in_pools(pools@)),
{
    let all = catalog();
    let mut tracks: Vec<Track> = Vec::new();
    let mut i: usize = 0;
    proof {
        reveal(Seq::filter);
        assert(all@.take(0) =~= Seq::<Track>::empty());
    }
    while i < all.len()
        invariant
            i <= all@.len(),
            all@ == track_catalog(),
            tracks@ == all@.take(i as int).filter(in_pools(pools@)),
        decreases all@.len() - i,
    {
        let track = all[i];
        proof {
            reveal(Seq::filter);
            assert(all@.take(i + 1).drop_last() =~= all@.take(i as int));
            assert(all@.take(i + 1).last() == track);
        }
        if pool_listed(pools, track.pool) {
            tracks.push(track);
        }
        i = i + 1;
    }
    assert(all@.take(all@.len() as int) =~= all@);
    tracks
}

} // verus!
