//! Catalog data shapes and the small computations around them: image URL
//! assembly, the fixed size menus, and the year drawn from a release date.
//! Talking to the remote catalog is the caller's job.

use vstd::prelude::*;

use crate::digits::{all_digits, dec_str, dec_val};
use crate::text::{find_char_at, first_occ};

verus! {

#[derive(Debug)]
pub struct TmdbGenre {
    pub id: u32,
    pub name: String,
}

#[derive(Debug)]
pub struct TmdbConfiguration {
    pub images: TmdbImageConfiguration,
}

#[derive(Debug)]
pub struct TmdbImageConfiguration {
    pub base_url: String,
    pub secure_base_url: String,
    pub backdrop_sizes: Vec<String>,
    pub logo_sizes: Vec<String>,
    pub poster_sizes: Vec<String>,
    pub profile_sizes: Vec<String>,
    pub still_sizes: Vec<String>,
}

#[derive(Debug)]
pub struct TmdbVideo {
    pub id: String,
    pub iso_639_1: String,
    pub iso_3166_1: String,
    pub key: String,
    pub name: String,
    pub site: String,
    pub video_type: String,
    pub size: u32,
    pub official: Option<bool>,
    pub published_at: Option<String>,
}

#[derive(Debug)]
pub struct TmdbVideosResponse {
    pub id: u64,
    pub results: Vec<TmdbVideo>,
}

#[derive(Debug)]
pub struct TmdbEpisodeExternalIds {
    pub id: u64,
    pub imdb_id: Option<String>,
    pub tvdb_id: Option<u64>,
    pub tvrage_id: Option<u64>,
}

#[derive(Debug)]
pub struct TraktCompatibleMovieIds {
    pub trakt: u64,
    pub slug: String,
    pub imdb: Option<String>,
    pub tmdb: Option<u64>,
}

#[derive(Debug)]
pub struct TraktCompatibleShowIds {
    pub trakt: u64,
    pub slug: String,
    pub tvdb: Option<u64>,
    pub imdb: Option<String>,
    pub tmdb: Option<u64>,
}

/// Image URLs point straight at the catalog's CDN, not through the proxy.
pub fn build_tmdb_image_url(file_path: String, size: Option<String>) -> (r: String)
    ensures
        r@ == "https://image.tmdb.org/t/p"@ + "/"@ + (match size {
            Some(s) => s@,
            None => "original"@,
        }) + file_path@,
{
    let mut url = String::from_str("https://image.tmdb.org/t/p");
    url.append("/");
    match &size {
        Some(s) => url.append(s.as_str()),
        None => url.append("original"),
    }
    url.append(file_path.as_str());
    proof {
        assert(url@ =~= "https://image.tmdb.org/t/p"@ + "/"@ + (match size {
            Some(s) => s@,
            None => "original"@,
        }) + file_path@);
    }
    url
}

/// The poster sizes the catalog offers.
pub fn get_poster_sizes() -> (r: Vec<String>)
    ensures
        r@.len() == 7,
        r@[0]@ == "w92"@,
        r@[1]@ == "w154"@,
        r@[2]@ == "w185"@,
        r@[3]@ == "w342"@,
        r@[4]@ == "w500"@,
        r@[5]@ == "w780"@,
        r@[6]@ == "original"@,
{
    let mut v: Vec<String> = Vec::new();
    v.push(String::from_str("w92"));
    v.push(String::from_str("w154"));
    v.push(String::from_str("w185"));
    v.push(String::from_str("w342"));
    v.push(String::from_str("w500"));
    v.push(String::from_str("w780"));
    v.push(String::from_str("original"));
    v
}

/// The backdrop sizes the catalog offers.
pub fn get_backdrop_sizes() -> (r: Vec<String>)
    ensures
        r@.len() == 4,
        r@[0]@ == "w300"@,
        r@[1]@ == "w780"@,
        r@[2]@ == "w1280"@,
        r@[3]@ == "original"@,
{
    let mut v: Vec<String> = Vec::new();
    v.push(String::from_str("w300"));
    v.push(String::from_str("w780"));
    v.push(String::from_str("w1280"));
    v.push(String::from_str("original"));
    v
}

/// The year named by a release date: its digits before the first dash (or
/// the whole string when it has none), when they form a number in range.
pub open spec fn year_spec(date: Seq<char>) -> Option<u32> {
    let d = first_occ(date, '-');
    let tok = if d < 0 {
        date
    } else {
        date.subrange(0, d)
    };
    if tok.len() > 0 && all_digits(tok) && dec_val(tok) <= u32::MAX {
        Some(dec_val(tok) as u32)
    } else {
        None
    }
}

/// Pull the year out of an optional `YYYY-MM-DD` release date.
pub fn extract_year(release_date: &Option<String>) -> (r: Option<u32>)
    ensures
        r == (match release_date {
            Some(d) => year_spec(d@),
            None => None::<u32>,
        }),
{
    let date = match release_date {
        Some(d) => d,
        None => {
            return None;
        },
    };
    let s = date.as_str();
    let n = s.unicode_len();
    let end = match find_char_at(s, '-') {
        Some(i) => i,
        None => n,
    };
    proof {
        if first_occ(s@, '-') < 0 {
            assert(s@.subrange(0, n as int) =~= s@);
        }
    }
    match crate::digits::parse_dec_u64(s, 0, end) {
        Some(v) => {
            if v <= 0xffff_ffff {
                Some(v as u32)
            } else {
                None
            }
        },
        None => None,
    }
}

} // verus!
