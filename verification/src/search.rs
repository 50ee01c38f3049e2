//! Torrent-search shapes and rules: the query handed to the indexer proxy
//! and the normalization of one raw indexer result. The HTTP search itself
//! is the caller's job.

use vstd::prelude::*;

use crate::index::opt_str_view;

verus! {

#[derive(Debug)]
pub struct TorrentResult {
    pub title: String,
    pub size: u64,
    pub seeders: u32,
    pub peers: u32,
    pub download_url: String,
    pub magnet_url: Option<String>,
    pub indexer: String,
    pub publish_date: Option<String>,
}

/// An id with every leading `tt` pair removed.
pub open spec fn strip_tt(s: Seq<char>) -> Seq<char>
    decreases s.len(),
{
    if s.len() >= 2 && s[0] == 't' && s[1] == 't' {
        strip_tt(s.subrange(2, s.len() as int))
    } else {
        s
    }
}

/// The query sent to the indexer: the title when one is given and nonempty,
/// else the id-based form.
pub open spec fn search_query_spec(imdb: Seq<char>, title: Option<Seq<char>>) -> Seq<char> {
    match title {
        Some(t) => if t.len() > 0 {
            t
        } else {
            "imdbid:"@ + strip_tt(imdb)
        },
        None => "imdbid:"@ + strip_tt(imdb),
    }
}

/// Build the search query, preferring the title over the id.
pub fn build_search_query(imdb_id: &str, title: Option<String>) -> (r: String)
    ensures
        r@ == search_query_spec(
            imdb_id@,
            match title {
                Some(t) => Some(t@),
                None => None,
            },
        ),
{
    match title {
        Some(t) => {
            if t.as_str().unicode_len() > 0 {
                return t;
            }
        },
        None => {},
    }
    let n = imdb_id.unicode_len();
    let mut i: usize = 0;
    proof {
        assert(imdb_id@.subrange(0, n as int) =~= imdb_id@);
    }
    while n - i >= 2
        invariant
            i <= n,
            n == imdb_id@.len(),
            strip_tt(imdb_id@) == strip_tt(imdb_id@.subrange(i as int, n as int)),
        ensures
            i <= n,
            n == imdb_id@.len(),
            strip_tt(imdb_id@) == strip_tt(imdb_id@.subrange(i as int, n as int)),
            strip_tt(imdb_id@.subrange(i as int, n as int)) == imdb_id@.subrange(
                i as int,
                n as int,
            ),
        decreases n - i,
    {
        let c0 = imdb_id.get_char(i);
        let c1 = imdb_id.get_char(i + 1);
        if !(c0 == 't' && c1 == 't') {
            proof {
                let sub = imdb_id@.subrange(i as int, n as int);
                assert(sub[0] == c0 && sub[1] == c1);
            }
            break ;
        }
        proof {
            let sub = imdb_id@.subrange(i as int, n as int);
            assert(sub[0] == 't' && sub[1] == 't');
            assert(sub.subrange(2, sub.len() as int) =~= imdb_id@.subrange(i + 2, n as int));
        }
        i = i + 2;
    }
    let rest = imdb_id.substring_char(i, n);
    let mut q = String::from_str("imdbid:");
    q.append(rest);
    proof {
        assert(q@ =~= "imdbid:"@ + strip_tt(imdb_id@));
    }
    q
}

/// Normalize one raw indexer result: a result needs a download URL or a
/// magnet link; absent numbers default to zero and an absent indexer name to
/// `Unknown`.
pub fn torrent_result_from_parts(
    title: String,
    size: Option<u64>,
    seeders: Option<u32>,
    peers: Option<u32>,
    download_url: Option<String>,
    magnet_url: Option<String>,
    indexer: Option<String>,
    publish_date: Option<String>,
) -> (r: Option<TorrentResult>)
    ensures
        match r {
            Some(t) => {
                &&& download_url is Some || magnet_url is Some
                &&& t.title@ == title@
                &&& t.size == (match size {
                    Some(v) => v,
                    None => 0u64,
                })
                &&& t.seeders == (match seeders {
                    Some(v) => v,
                    None => 0u32,
                })
                &&& t.peers == (match peers {
                    Some(v) => v,
                    None => 0u32,
                })
                &&& t.download_url@ == (match opt_str_view(download_url) {
                    Some(d) => d,
                    None => magnet_url->Some_0@,
                })
                &&& opt_str_view(t.magnet_url) == opt_str_view(magnet_url)
                &&& t.indexer@ == (match opt_str_view(indexer) {
                    Some(x) => x,
                    None => "Unknown"@,
                })
                &&& opt_str_view(t.publish_date) == opt_str_view(publish_date)
            },
            None => download_url is None && magnet_url is None,
        },
{
    let url = match download_url {
        Some(d) => d,
        None => match &magnet_url {
            Some(m) => m.clone(),
            None => {
                return None;
            },
        },
    };
    Some(
        TorrentResult {
            title,
            size: match size {
                Some(v) => v,
                None => 0,
            },
            seeders: match seeders {
                Some(v) => v,
                None => 0,
            },
            peers: match peers {
                Some(v) => v,
                None => 0,
            },
            download_url: url,
            magnet_url,
            indexer: match indexer {
                Some(x) => x,
                None => String::from_str("Unknown"),
            },
            publish_date,
        },
    )
}


/// The mathematical image of one result.
pub ghost struct TorrentResultView {
    pub title: Seq<char>,
    pub size: u64,
    pub seeders: u32,
    pub peers: u32,
    pub download_url: Seq<char>,
    pub magnet_url: Option<Seq<char>>,
    pub indexer: Seq<char>,
    pub publish_date: Option<Seq<char>>,
}

impl View for TorrentResult {
    type V = TorrentResultView;

    open spec fn view(&self) -> TorrentResultView {
        TorrentResultView {
            title: self.title@,
            size: self.size,
            seeders: self.seeders,
            peers: self.peers,
            download_url: self.download_url@,
            magnet_url: opt_str_view(self.magnet_url),
            indexer: self.indexer@,
            publish_date: opt_str_view(self.publish_date),
        }
    }
}

impl Clone for TorrentResult {
    fn clone(&self) -> (r: Self)
        ensures
            r@ == self@,
    {
        TorrentResult {
            title: self.title.clone(),
            size: self.size,
            seeders: self.seeders,
            peers: self.peers,
            download_url: self.download_url.clone(),
            magnet_url: clone_opt_str(&self.magnet_url),
            indexer: self.indexer.clone(),
            publish_date: clone_opt_str(&self.publish_date),
        }
    }
}

/// Copy an optional string, keeping its characters.
fn clone_opt_str(o: &Option<String>) -> (r: Option<String>)
    ensures
        opt_str_view(r) == opt_str_view(*o),
{
    match o {
        Some(s) => Some(s.clone()),
        None => None,
    }
}

/// The views of a sequence of results.
pub open spec fn result_views_of(s: Seq<TorrentResult>) -> Seq<TorrentResultView> {
    s.map_values(|t: TorrentResult| t@)
}

/// Results ordered by seeder count, most first.
pub open spec fn sorted_by_seeders_desc(s: Seq<TorrentResultView>) -> bool {
    forall|i: int, j: int|
        0 <= i < j < s.len() ==> (#[trigger] s[i]).seeders >= (#[trigger] s[j]).seeders
}

/// Inserting anywhere adds exactly that element to a sequence's multiset.
proof fn lemma_insert_to_multiset<A>(s: Seq<A>, p: int, x: A)
    requires
        0 <= p <= s.len(),
    ensures
        s.insert(p, x).to_multiset() =~= s.to_multiset().insert(x),
{
    broadcast use vstd::multiset::group_multiset_axioms;

    let sub0 = s.subrange(0, p);
    let sub1 = s.subrange(p, s.len() as int);
    vstd::seq_lib::lemma_multiset_commutative(sub0.push(x), sub1);
    vstd::seq_lib::lemma_multiset_commutative(sub0, sub1);
    sub0.to_multiset_ensures();
    assert(s =~= sub0 + sub1);
    assert(sub0.to_multiset().insert(x).add(sub1.to_multiset()) =~= sub0.to_multiset().add(
        sub1.to_multiset(),
    ).insert(x));
}

/// Order results by seeder count, most first: the output is sorted and is a
/// rearrangement of the input.
pub fn sort_by_seeders(v: &Vec<TorrentResult>) -> (r: Vec<TorrentResult>)
    ensures
        r@.len() == v@.len(),
        sorted_by_seeders_desc(result_views_of(r@)),
        result_views_of(r@).to_multiset() == result_views_of(v@).to_multiset(),
{
    let mut out: Vec<TorrentResult> = Vec::new();
    let mut i: usize = 0;
    proof {
        assert(result_views_of(out@) =~= result_views_of(v@.subrange(0, 0)));
        result_views_of(out@).to_multiset_ensures();
    }
    while i < v.len()
        invariant
            i <= v@.len(),
            out@.len() == i,
            sorted_by_seeders_desc(result_views_of(out@)),
            result_views_of(out@).to_multiset() == result_views_of(
                v@.subrange(0, i as int),
            ).to_multiset(),
        decreases v@.len() - i,
    {
        let x = v[i].clone();
        let ghost xv = v@[i as int]@;
        let ghost old_views = result_views_of(out@);
        let mut p: usize = 0;
        while p < out.len()
            invariant
                p <= out@.len(),
                old_views == result_views_of(out@),
                xv == x@,
                forall|k: int| 0 <= k < p ==> (#[trigger] old_views[k]).seeders >= xv.seeders,
            ensures
                p <= out@.len(),
                old_views == result_views_of(out@),
                forall|k: int| 0 <= k < p ==> (#[trigger] old_views[k]).seeders >= xv.seeders,
                p < out@.len() ==> old_views[p as int].seeders < xv.seeders,
            decreases out@.len() - p,
        {
            if out[p].seeders < x.seeders {
                break ;
            }
            proof {
                assert(old_views[p as int] == out@[p as int]@);
            }
            p = p + 1;
        }
        let ghost pre = out@;
        out.insert(p, x);
        proof {
            let new_views = result_views_of(out@);
            old_views.insert_ensures(p as int, xv);
            pre.insert_ensures(p as int, x);
            assert(new_views =~= old_views.insert(p as int, xv)) by {
                assert forall|k: int| 0 <= k < new_views.len() implies new_views[k]
                    == old_views.insert(p as int, xv)[k] by {
                    assert(new_views[k] == out@[k]@);
                    if k < p {
                        assert(out@[k] == pre[k]);
                    } else if k > p {
                        assert(out@[k] == pre[k - 1]);
                    } else {
                        assert(out@[k] == x);
                    }
                }
            }
            assert(sorted_by_seeders_desc(new_views)) by {
                assert forall|a: int, b: int|
                    0 <= a < b < new_views.len() implies (#[trigger] new_views[a]).seeders >= (
                #[trigger] new_views[b]).seeders by {
                    if a < p && b < p {
                    } else if b == p {
                        assert(new_views[a] == old_views[a]);
                    } else if a == p {
                        assert(new_views[b] == old_views[b - 1]);
                        assert(old_views[p as int].seeders < xv.seeders);
                        assert(old_views[b - 1].seeders <= old_views[p as int].seeders);
                    } else if a < p {
                        assert(new_views[a] == old_views[a] && new_views[b] == old_views[b - 1]);
                    } else {
                        assert(new_views[a] == old_views[a - 1] && new_views[b] == old_views[b
                            - 1]);
                    }
                }
            }
            lemma_insert_to_multiset(old_views, p as int, xv);
            let prev = result_views_of(v@.subrange(0, i as int));
            let next = result_views_of(v@.subrange(0, i + 1));
            assert(next =~= prev.push(xv));
            prev.to_multiset_ensures();
        }
        i = i + 1;
    }
    proof {
        assert(v@.subrange(0, v@.len() as int) =~= v@);
    }
    out
}

} // verus!
