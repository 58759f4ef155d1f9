//! Composition of a compiled metadata template with the song's tags.
//!
//! The outer node list is rendered as is: an absent tag shows a placeholder.
//! Inside an optional group, literal text waits in a pending buffer; a
//! present tag lets it out before its own value, an absent one throws it
//! away. When the group ends, what still waits is kept only if the last tag
//! met was present. A nested group's text counts as literal text of the group
//! around it.

use vstd::prelude::*;
use crate::meta_format::{MetaFormat, MetaNode, meta_view, metas_view};
use crate::text::{append, chars_of, int_text, int_text_of, string_of, trim_end, trimmed_end};

verus! {

broadcast use vstd::std_specs::vec::group_vec_axioms, vstd::seq::group_seq_axioms;

/// What a tag shows when it is absent outside an optional group.
pub const MISSING_TAG: &'static str = "N/A";

/// The tags of the current song, as a player reported them.
pub struct TagSnapshot {
    pub artists: Option<Vec<String>>,
    pub album: Option<String>,
    pub album_artists: Option<Vec<String>>,
    pub title: Option<String>,
    pub track: Option<i32>,
}

/// What a `TagSnapshot` holds, with its text as characters.
pub struct Tags {
    pub artists: Option<Seq<Seq<char>>>,
    pub album: Option<Seq<char>>,
    pub album_artists: Option<Seq<Seq<char>>>,
    pub title: Option<Seq<char>>,
    pub track: Option<int>,
}

pub open spec fn texts_view(v: Seq<String>) -> Seq<Seq<char>> {
    v.map_values(|s: String| s@)
}

pub open spec fn list_view(l: Option<Vec<String>>) -> Option<Seq<Seq<char>>> {
    match l {
        Some(v) => Some(texts_view(v@)),
        None => None,
    }
}

pub open spec fn text_view(t: Option<String>) -> Option<Seq<char>> {
    match t {
        Some(s) => Some(s@),
        None => None,
    }
}

impl View for TagSnapshot {
    type V = Tags;

    open spec fn view(&self) -> Tags {
        Tags {
            artists: list_view(self.artists),
            album: text_view(self.album),
            album_artists: list_view(self.album_artists),
            title: text_view(self.title),
            track: match self.track {
                Some(n) => Some(n as int),
                None => None,
            },
        }
    }
}

/// A list tag counts only when it has a first element that is not empty.
pub open spec fn present_list(l: Option<Seq<Seq<char>>>) -> Option<Seq<Seq<char>>> {
    match l {
        Some(v) => if v.len() > 0 && v[0].len() > 0 {
            Some(v)
        } else {
            None
        },
        None => None,
    }
}

/// A text tag counts only when it is not empty.
pub open spec fn present_text(t: Option<Seq<char>>) -> Option<Seq<char>> {
    match t {
        Some(s) => if s.len() > 0 {
            Some(s)
        } else {
            None
        },
        None => None,
    }
}

/// The elements of `l`, with `sep` between each two.
pub open spec fn join(l: Seq<Seq<char>>, sep: Seq<char>) -> Seq<char>
    decreases l.len(),
{
    if l.len() == 0 {
        seq![]
    } else if l.len() == 1 {
        l[0]
    } else {
        join(l.drop_last(), sep) + sep + l.last()
    }
}

/// What the tag node `k` shows, or `None` when the tag is absent.
pub open spec fn tag_text(k: MetaNode, tags: Tags) -> Option<Seq<char>> {
    match k {
        MetaNode::Artist => match present_list(tags.artists) {
            Some(v) => Some(v[0]),
            None => None,
        },
        MetaNode::Artists => match present_list(tags.artists) {
            Some(v) => Some(join(v, ", "@)),
            None => None,
        },
        MetaNode::Album => present_text(tags.album),
        MetaNode::AlbumArtist => match present_list(tags.album_artists) {
            Some(v) => Some(v[0]),
            None => None,
        },
        MetaNode::Title => present_text(tags.title),
        MetaNode::Track => match tags.track {
            Some(n) => Some(int_text(n)),
            None => None,
        },
        _ => None,
    }
}

/// The text so far of one group: what is out, what waits, and whether the
/// last tag met was present.
pub struct Composed {
    pub out: Seq<char>,
    pub pending: Seq<char>,
    pub seen: bool,
}

pub open spec fn add_literal(st: Composed, t: Seq<char>, optional: bool) -> Composed {
    if optional {
        Composed { pending: st.pending + t, ..st }
    } else {
        Composed { out: st.out + t, ..st }
    }
}

pub open spec fn add_tag(st: Composed, v: Option<Seq<char>>, optional: bool) -> Composed {
    if optional {
        match v {
            Some(x) => Composed { out: st.out + st.pending + x, pending: seq![], seen: true },
            None => Composed { pending: seq![], seen: false, ..st },
        }
    } else {
        match v {
            Some(x) => Composed { out: st.out + x, ..st },
            None => Composed { out: st.out + MISSING_TAG@, ..st },
        }
    }
}

/// What a group amounts to once it ends.
pub open spec fn finish(st: Composed) -> Seq<char> {
    if st.seen {
        st.out + st.pending
    } else {
        st.out
    }
}

/// The nodes of one group (`optional`) or of the outer list, rendered in
/// order.
pub open spec fn compose_nodes(nodes: Seq<MetaNode>, optional: bool, tags: Tags) -> Composed
    decreases nodes,
{
    if nodes.len() == 0 {
        Composed { out: seq![], pending: seq![], seen: false }
    } else {
        let st = compose_nodes(nodes.drop_last(), optional, tags);
        match nodes.last() {
            MetaNode::Literal(t) => add_literal(st, t, optional),
            MetaNode::Optional(inner) => add_literal(
                st,
                finish(compose_nodes(inner, true, tags)),
                optional,
            ),
            k => add_tag(st, tag_text(k, tags), optional),
        }
    }
}

/// The metadata text: the outer list rendered, without trailing white space.
pub open spec fn content_text(nodes: Seq<MetaNode>, tags: Tags) -> Seq<char> {
    trim_end(finish(compose_nodes(nodes, false, tags)))
}

pub open spec fn opt_view(o: Option<Vec<char>>) -> Option<Seq<char>> {
    match o {
        Some(v) => Some(v@),
        None => None,
    }
}

fn first_of(l: &Option<Vec<String>>) -> (r: Option<Vec<char>>)
    ensures
        opt_view(r) == match present_list(list_view(*l)) {
            Some(v) => Some(v[0]),
            None => None::<Seq<char>>,
        },
{
    match l {
        Some(v) => {
            if v.len() > 0 {
                let f = chars_of(v[0].as_str());
                if f.len() > 0 {
                    return Some(f);
                }
            }
            None
        },
        None => None,
    }
}

fn joined(l: &Option<Vec<String>>) -> (r: Option<Vec<char>>)
    ensures
        opt_view(r) == match present_list(list_view(*l)) {
            Some(v) => Some(join(v, ", "@)),
            None => None::<Seq<char>>,
        },
{
    match l {
        Some(v) => {
            if v.len() == 0 {
                return None;
            }
            let ghost tv = texts_view(v@);
            let mut out = chars_of(v[0].as_str());
            if out.len() == 0 {
                return None;
            }
            let sep = chars_of(", ");
            assert(tv.subrange(0, 1).len() == 1);
            for k in 1..v.len()
                invariant
                    tv == texts_view(v@),
                    sep@ == ", "@,
                    out@ == join(tv.subrange(0, k as int), ", "@),
            {
                append(&mut out, &sep);
                let next = chars_of(v[k].as_str());
                append(&mut out, &next);
                assert(tv.subrange(0, k + 1).drop_last() == tv.subrange(0, k as int));
            }
            assert(tv.subrange(0, tv.len() as int) == tv);
            Some(out)
        },
        None => None,
    }
}

fn present(t: &Option<String>) -> (r: Option<Vec<char>>)
    ensures
        opt_view(r) == present_text(text_view(*t)),
{
    match t {
        Some(s) => {
            let c = chars_of(s.as_str());
            if c.len() > 0 {
                Some(c)
            } else {
                None
            }
        },
        None => None,
    }
}

/// What each tag shows for one snapshot, worked out once.
struct TagTexts {
    artist: Option<Vec<char>>,
    artists: Option<Vec<char>>,
    album: Option<Vec<char>>,
    album_artist: Option<Vec<char>>,
    title: Option<Vec<char>>,
    track: Option<Vec<char>>,
}

impl TagTexts {
    spec fn shows(&self, tags: Tags) -> bool {
        &&& opt_view(self.artist) == tag_text(MetaNode::Artist, tags)
        &&& opt_view(self.artists) == tag_text(MetaNode::Artists, tags)
        &&& opt_view(self.album) == tag_text(MetaNode::Album, tags)
        &&& opt_view(self.album_artist) == tag_text(MetaNode::AlbumArtist, tags)
        &&& opt_view(self.title) == tag_text(MetaNode::Title, tags)
        &&& opt_view(self.track) == tag_text(MetaNode::Track, tags)
    }

    fn of(tags: &TagSnapshot) -> (r: TagTexts)
        ensures
            r.shows(tags@),
    {
        TagTexts {
            artist: first_of(&tags.artists),
            artists: joined(&tags.artists),
            album: present(&tags.album),
            album_artist: first_of(&tags.album_artists),
            title: present(&tags.title),
            track: match tags.track {
                Some(n) => Some(int_text_of(n)),
                None => None,
            },
        }
    }

    /// What the tag node `m` shows.
    fn get(&self, m: &MetaFormat, Ghost(tags): Ghost<Tags>) -> (r: &Option<Vec<char>>)
        requires
            self.shows(tags),
            !(m is Optional),
            !(m is String),
        ensures
            opt_view(*r) == tag_text(m@, tags),
    {
        match m {
            MetaFormat::Artist => &self.artist,
            MetaFormat::Artists => &self.artists,
            MetaFormat::Album => &self.album,
            MetaFormat::AlbumArtist => &self.album_artist,
            MetaFormat::Title => &self.title,
            _ => &self.track,
        }
    }
}

/// Renders `nodes` as one group (`optional`) or as the outer list, and
/// hands back what is out, what waits, and whether the last tag was present.
fn compose_group(
    nodes: &Vec<MetaFormat>,
    optional: bool,
    texts: &TagTexts,
    Ghost(tags): Ghost<Tags>,
) -> (r: (Vec<char>, Vec<char>, bool))
    requires
        texts.shows(tags),
    ensures
        compose_nodes(metas_view(nodes@), optional, tags) == (Composed {
            out: r.0@,
            pending: r.1@,
            seen: r.2,
        }),
    decreases nodes,
{
    let mut out: Vec<char> = Vec::new();
    let mut pending: Vec<char> = Vec::new();
    let mut seen = false;
    let missing = chars_of(MISSING_TAG);
    for i in 0..nodes.len()
        invariant
            texts.shows(tags),
            missing@ == MISSING_TAG@,
            compose_nodes(metas_view(nodes@.subrange(0, i as int)), optional, tags) == (Composed {
                out: out@,
                pending: pending@,
                seen: seen,
            }),
    {
        let ghost prefix = nodes@.subrange(0, i + 1);
        assert(prefix.drop_last() == nodes@.subrange(0, i as int));
        assert(metas_view(prefix).last() == meta_view(nodes@[i as int]));
        assert(metas_view(prefix).drop_last() == metas_view(nodes@.subrange(0, i as int)));
        match &nodes[i] {
            MetaFormat::String(s) => {
                let t = chars_of(s.as_str());
                if optional {
                    append(&mut pending, &t);
                } else {
                    append(&mut out, &t);
                }
            },
            MetaFormat::Optional(inner) => {
                proof {
                    assert(decreases_to!(nodes@[i as int] => *inner));
                }
                let (o, p, sn) = compose_group(inner, true, texts, Ghost(tags));
                let mut t = o;
                if sn {
                    append(&mut t, &p);
                }
                if optional {
                    append(&mut pending, &t);
                } else {
                    append(&mut out, &t);
                }
            },
            m => {
                let v = texts.get(m, Ghost(tags));
                if optional {
                    match v {
                        Some(x) => {
                            append(&mut out, &pending);
                            append(&mut out, x);
                            pending = Vec::new();
                            seen = true;
                        },
                        None => {
                            pending = Vec::new();
                            seen = false;
                        },
                    }
                } else {
                    match v {
                        Some(x) => append(&mut out, x),
                        None => append(&mut out, &missing),
                    }
                }
            },
        }
    }
    assert(nodes@.subrange(0, nodes@.len() as int) == nodes@);
    (out, pending, seen)
}

/// Renders the metadata template `format` with the song's `tags`, without
/// trailing white space.
pub fn build_content(format: &Vec<MetaFormat>, tags: &TagSnapshot) -> (r: String)
    ensures
        r@ == content_text(metas_view(format@), tags@),
{
    let texts = TagTexts::of(tags);
    let (o, p, sn) = compose_group(format, false, &texts, Ghost(tags@));
    let mut all = o;
    if sn {
        append(&mut all, &p);
    }
    string_of(&trimmed_end(&all))
}

} // verus!
