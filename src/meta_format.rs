//! The song-metadata template: literal text, tag references such as
//! `[title]`, and optional groups `<...>` that vanish when their tags are
//! absent. Groups nest to any depth; the compiler keeps an explicit stack of
//! open groups.

use vstd::prelude::*;
use crate::text::{append_str, chars_of, nat_text, push_decimal, same_chars, string_of, trim, trimmed};

verus! {

broadcast use vstd::std_specs::vec::group_vec_axioms, vstd::seq::group_seq_axioms;

/// The template used when none is configured.
pub const DEFAULT_META_FORMAT: &'static str = "<[artist] - >[title]";

/// One compiled node of the metadata template.
#[derive(Debug, PartialEq, Eq)]
pub enum MetaFormat {
    Artist,
    Artists,
    Album,
    AlbumArtist,
    Title,
    Track,
    Optional(Vec<MetaFormat>),
    String(String),
}

/// What a `MetaFormat` is, with its text as characters.
pub enum MetaNode {
    Artist,
    Artists,
    Album,
    AlbumArtist,
    Title,
    Track,
    Optional(Seq<MetaNode>),
    Literal(Seq<char>),
}

pub open spec fn meta_view(m: MetaFormat) -> MetaNode
    decreases m,
{
    match m {
        MetaFormat::Artist => MetaNode::Artist,
        MetaFormat::Artists => MetaNode::Artists,
        MetaFormat::Album => MetaNode::Album,
        MetaFormat::AlbumArtist => MetaNode::AlbumArtist,
        MetaFormat::Title => MetaNode::Title,
        MetaFormat::Track => MetaNode::Track,
        MetaFormat::Optional(v) => MetaNode::Optional(metas_view(v@)),
        MetaFormat::String(s) => MetaNode::Literal(s@),
    }
}

pub open spec fn metas_view(s: Seq<MetaFormat>) -> Seq<MetaNode>
    decreases s,
{
    if s.len() == 0 {
        seq![]
    } else {
        metas_view(s.drop_last()).push(meta_view(s.last()))
    }
}

impl View for MetaFormat {
    type V = MetaNode;

    open spec fn view(&self) -> MetaNode {
        meta_view(*self)
    }
}

impl Clone for MetaFormat {
    fn clone(&self) -> (r: Self)
        ensures
            r@ == self@,
        decreases self,
    {
        match self {
            MetaFormat::Artist => MetaFormat::Artist,
            MetaFormat::Artists => MetaFormat::Artists,
            MetaFormat::Album => MetaFormat::Album,
            MetaFormat::AlbumArtist => MetaFormat::AlbumArtist,
            MetaFormat::Title => MetaFormat::Title,
            MetaFormat::Track => MetaFormat::Track,
            MetaFormat::Optional(v) => MetaFormat::Optional(clone_nodes(v)),
            MetaFormat::String(s) => MetaFormat::String(s.clone()),
        }
    }
}

/// A copy of each node of `v`.
fn clone_nodes(v: &Vec<MetaFormat>) -> (r: Vec<MetaFormat>)
    ensures
        metas_view(r@) == metas_view(v@),
    decreases v,
{
    let mut r: Vec<MetaFormat> = Vec::new();
    for i in 0..v.len()
        invariant
            metas_view(r@) == metas_view(v@.subrange(0, i as int)),
    {
        let ghost before = r@;
        let c = v[i].clone();
        r.push(c);
        proof {
            assert(r@.drop_last() == before);
            assert(v@.subrange(0, i + 1).drop_last() == v@.subrange(0, i as int));
        }
    }
    assert(v@.subrange(0, v@.len() as int) == v@);
    r
}

/// Why a metadata template was rejected; positions count characters from 0.
#[derive(Debug)]
pub enum MetaFormatError {
    Unexpected(usize, char),
    UnknownBlock(usize, String),
    UnclosedOptional,
}

/// What a `MetaFormatError` is, with its names as characters.
pub enum MetaFault {
    Unexpected(nat, char),
    UnknownBlock(nat, Seq<char>),
    UnclosedOptional,
}

impl View for MetaFormatError {
    type V = MetaFault;

    open spec fn view(&self) -> MetaFault {
        match self {
            MetaFormatError::Unexpected(p, c) => MetaFault::Unexpected(*p as nat, *c),
            MetaFormatError::UnknownBlock(p, n) => MetaFault::UnknownBlock(*p as nat, n@),
            MetaFormatError::UnclosedOptional => MetaFault::UnclosedOptional,
        }
    }
}

/// The text of an error: `at {position}: {detail}`, or the unclosed group.
pub open spec fn meta_error_text(e: MetaFault) -> Seq<char> {
    match e {
        MetaFault::Unexpected(p, c) => "at "@ + nat_text(p) + ": unexpected '"@ + seq![c] + "'"@,
        MetaFault::UnknownBlock(p, n) => "at "@ + nat_text(p) + ": unknown block '"@ + n + "'"@,
        MetaFault::UnclosedOptional => ": reached end-of-line with an unclosed optional tag"@,
    }
}

impl MetaFormatError {
    /// What went wrong and where, for a person to read.
    pub fn message(&self) -> (r: String)
        ensures
            r@ == meta_error_text(self@),
    {
        let mut out: Vec<char> = Vec::new();
        match self {
            MetaFormatError::Unexpected(p, c) => {
                append_str(&mut out, "at ");
                push_decimal(&mut out, *p as u64);
                append_str(&mut out, ": unexpected '");
                out.push(*c);
                append_str(&mut out, "'");
            },
            MetaFormatError::UnknownBlock(p, n) => {
                append_str(&mut out, "at ");
                push_decimal(&mut out, *p as u64);
                append_str(&mut out, ": unknown block '");
                append_str(&mut out, n.as_str());
                append_str(&mut out, "'");
            },
            MetaFormatError::UnclosedOptional => {
                append_str(&mut out, ": reached end-of-line with an unclosed optional tag");
            },
        }
        string_of(&out)
    }
}

/// Where the scan of the innermost open group stands.
#[derive(Clone, Copy, Debug, PartialEq, Eq, Structural)]
pub enum MetaState {
    Escape,
    Text,
    Block,
}

/// The state of the scan: the pending text, where the current tag name
/// starts, where the last `[` stands, and one node list per open group, the
/// outermost first.
pub struct MetaScan {
    pub state: MetaState,
    pub buffer: Seq<char>,
    pub start: nat,
    pub open: nat,
    pub frames: Seq<Seq<MetaNode>>,
}

/// The tag that the name `n` refers to.
pub open spec fn tag_node(n: Seq<char>) -> Option<MetaNode> {
    if n == "artists"@ {
        Some(MetaNode::Artists)
    } else if n == "artist"@ {
        Some(MetaNode::Artist)
    } else if n == "album_artist"@ {
        Some(MetaNode::AlbumArtist)
    } else if n == "album"@ {
        Some(MetaNode::Album)
    } else if n == "title"@ {
        Some(MetaNode::Title)
    } else if n == "track"@ {
        Some(MetaNode::Track)
    } else {
        None
    }
}

/// `frames` with `node` added to the innermost group.
pub open spec fn add_node(frames: Seq<Seq<MetaNode>>, node: MetaNode) -> Seq<Seq<MetaNode>> {
    frames.update(frames.len() - 1, frames.last().push(node))
}

pub open spec fn meta_keep(s: MetaScan, c: char) -> MetaScan {
    MetaScan { buffer: s.buffer.push(c), ..s }
}

/// The pending text, if any, becomes a literal of the innermost group.
pub open spec fn meta_flushed(s: MetaScan) -> MetaScan {
    if s.buffer.len() > 0 {
        MetaScan { frames: add_node(s.frames, MetaNode::Literal(s.buffer)), buffer: seq![], ..s }
    } else {
        s
    }
}

/// The innermost group closes and becomes an `Optional` node of the one
/// around it.
pub open spec fn close_group(frames: Seq<Seq<MetaNode>>) -> Seq<Seq<MetaNode>> {
    add_node(frames.drop_last(), MetaNode::Optional(frames.last()))
}

/// One character `c`, at position `pos`.
pub open spec fn meta_step(s: MetaScan, pos: nat, c: char) -> Result<MetaScan, MetaFault> {
    if s.state == MetaState::Escape {
        Ok(MetaScan { state: MetaState::Text, ..meta_keep(s, c) })
    } else if c == '\\' {
        if s.state == MetaState::Text {
            Ok(MetaScan { state: MetaState::Escape, ..s })
        } else {
            Err(MetaFault::Unexpected(pos, c))
        }
    } else if c == '[' {
        if s.state == MetaState::Text {
            Ok(MetaScan { state: MetaState::Block, start: pos + 1, open: pos, ..meta_flushed(s) })
        } else {
            Err(MetaFault::Unexpected(pos, c))
        }
    } else if c == ']' {
        if s.state == MetaState::Block {
            let n = trim(s.buffer);
            match tag_node(n) {
                Some(t) => Ok(
                    MetaScan {
                        state: MetaState::Text,
                        buffer: seq![],
                        start: pos + 1,
                        open: s.open,
                        frames: add_node(s.frames, t),
                    },
                ),
                None => Err(MetaFault::UnknownBlock(s.start, n)),
            }
        } else {
            Err(MetaFault::Unexpected(pos, c))
        }
    } else if c == '<' {
        if s.state == MetaState::Text {
            let f = meta_flushed(s);
            Ok(MetaScan { start: pos + 1, frames: f.frames.push(seq![]), ..f })
        } else {
            Err(MetaFault::Unexpected(pos, c))
        }
    } else if c == '>' {
        if s.state == MetaState::Text && s.frames.len() > 1 {
            let f = meta_flushed(s);
            Ok(MetaScan { start: pos + 1, frames: close_group(f.frames), ..f })
        } else {
            Err(MetaFault::Unexpected(pos, c))
        }
    } else {
        Ok(meta_keep(s, c))
    }
}

pub open spec fn initial_meta_scan() -> MetaScan {
    MetaScan { state: MetaState::Text, buffer: seq![], start: 0, open: 0, frames: seq![seq![]] }
}

/// The scan after the characters `t`, or the first error met in them.
pub open spec fn scan_meta(t: Seq<char>) -> Result<MetaScan, MetaFault>
    decreases t.len(),
{
    if t.len() == 0 {
        Ok(initial_meta_scan())
    } else {
        match scan_meta(t.drop_last()) {
            Ok(s) => meta_step(s, (t.len() - 1) as nat, t.last()),
            Err(e) => Err(e),
        }
    }
}

/// The nodes that the template `t` compiles to: a tag reference still open
/// at the end is an unexpected `[`, a lone `\\` at the end an unexpected
/// `\\`, every group must be closed, and what is left pending at the end is
/// a literal.
pub open spec fn compile_meta(t: Seq<char>) -> Result<Seq<MetaNode>, MetaFault> {
    match scan_meta(t) {
        Ok(s) => if s.state == MetaState::Escape {
            Err(MetaFault::Unexpected((t.len() - 1) as nat, '\\'))
        } else if s.state == MetaState::Block {
            Err(MetaFault::Unexpected(s.open, '['))
        } else if s.frames.len() > 1 {
            Err(MetaFault::UnclosedOptional)
        } else {
            Ok(meta_flushed(s).frames[0])
        },
        Err(e) => Err(e),
    }
}

pub open spec fn meta_outcome(r: Result<Vec<MetaFormat>, MetaFormatError>) -> Result<
    Seq<MetaNode>,
    MetaFault,
> {
    match r {
        Ok(v) => Ok(metas_view(v@)),
        Err(e) => Err(e@),
    }
}

pub open spec fn frames_view(f: Seq<Vec<MetaFormat>>) -> Seq<Seq<MetaNode>> {
    f.map_values(|v: Vec<MetaFormat>| metas_view(v@))
}

pub open spec fn meta_step_outcome(r: Result<(), MetaFormatError>, s: MetaScan) -> Result<
    MetaScan,
    MetaFault,
> {
    match r {
        Ok(_) => Ok(s),
        Err(e) => Err(e@),
    }
}

fn tag_node_of(n: &Vec<char>) -> (r: Option<MetaFormat>)
    ensures
        match r {
            Some(m) => tag_node(n@) == Some(m@),
            None => tag_node(n@) is None,
        },
{
    if same_chars(n, "artists") {
        Some(MetaFormat::Artists)
    } else if same_chars(n, "artist") {
        Some(MetaFormat::Artist)
    } else if same_chars(n, "album_artist") {
        Some(MetaFormat::AlbumArtist)
    } else if same_chars(n, "album") {
        Some(MetaFormat::Album)
    } else if same_chars(n, "title") {
        Some(MetaFormat::Title)
    } else if same_chars(n, "track") {
        Some(MetaFormat::Track)
    } else {
        None
    }
}

proof fn lemma_metas_view_push(s: Seq<MetaFormat>, m: MetaFormat)
    ensures
        metas_view(s.push(m)) == metas_view(s).push(meta_view(m)),
{
    assert(s.push(m).drop_last() == s);
}

struct MetaScanner {
    state: MetaState,
    buffer: Vec<char>,
    start: usize,
    open: usize,
    frames: Vec<Vec<MetaFormat>>,
}

impl MetaScanner {
    spec fn model(&self) -> MetaScan {
        MetaScan {
            state: self.state,
            buffer: self.buffer@,
            start: self.start as nat,
            open: self.open as nat,
            frames: frames_view(self.frames@),
        }
    }

    spec fn wf(&self) -> bool {
        self.frames@.len() >= 1
    }

    /// Adds `m` to the innermost group.
    fn add(&mut self, m: MetaFormat)
        requires
            old(self).wf(),
        ensures
            final(self).wf(),
            final(self).model() == (MetaScan {
                frames: add_node(old(self).model().frames, m@),
                ..old(self).model()
            }),
    {
        let ghost before = self.frames@;
        let mut top = self.frames.pop().unwrap();
        let ghost top0 = top@;
        top.push(m);
        proof {
            lemma_metas_view_push(top0, m);
        }
        self.frames.push(top);
        assert(frames_view(self.frames@) == add_node(frames_view(before), m@));
    }

    fn flush(&mut self)
        requires
            old(self).wf(),
        ensures
            final(self).wf(),
            final(self).model() == meta_flushed(old(self).model()),
    {
        if self.buffer.len() > 0 {
            let lit = MetaFormat::String(string_of(&self.buffer));
            self.add(lit);
            self.buffer = Vec::new();
        }
    }

    fn step(&mut self, pos: usize, c: char) -> (r: Result<(), MetaFormatError>)
        requires
            old(self).wf(),
            pos < usize::MAX,
        ensures
            final(self).wf(),
            meta_step_outcome(r, final(self).model()) == meta_step(old(self).model(), pos as nat, c),
    {
        if self.state == MetaState::Escape {
            self.buffer.push(c);
            self.state = MetaState::Text;
            Ok(())
        } else if c == '\\' {
            if self.state == MetaState::Text {
                self.state = MetaState::Escape;
                Ok(())
            } else {
                Err(MetaFormatError::Unexpected(pos, c))
            }
        } else if c == '[' {
            if self.state == MetaState::Text {
                self.flush();
                self.state = MetaState::Block;
                self.start = pos + 1;
                self.open = pos;
                Ok(())
            } else {
                Err(MetaFormatError::Unexpected(pos, c))
            }
        } else if c == ']' {
            if self.state == MetaState::Block {
                let n = trimmed(&self.buffer);
                match tag_node_of(&n) {
                    Some(t) => {
                        self.add(t);
                        self.state = MetaState::Text;
                        self.buffer = Vec::new();
                        self.start = pos + 1;
                        Ok(())
                    },
                    None => Err(MetaFormatError::UnknownBlock(self.start, string_of(&n))),
                }
            } else {
                Err(MetaFormatError::Unexpected(pos, c))
            }
        } else if c == '<' {
            if self.state == MetaState::Text {
                self.flush();
                self.start = pos + 1;
                let ghost before = self.frames@;
                self.frames.push(Vec::new());
                assert(frames_view(self.frames@) == frames_view(before).push(seq![]));
                Ok(())
            } else {
                Err(MetaFormatError::Unexpected(pos, c))
            }
        } else if c == '>' {
            if self.state == MetaState::Text && self.frames.len() > 1 {
                self.flush();
                self.start = pos + 1;
                let ghost before = self.frames@;
                let group = self.frames.pop().unwrap();
                assert(frames_view(self.frames@) == frames_view(before).drop_last());
                self.add(MetaFormat::Optional(group));
                Ok(())
            } else {
                Err(MetaFormatError::Unexpected(pos, c))
            }
        } else {
            self.buffer.push(c);
            Ok(())
        }
    }
}

/// Compiles a metadata template into its node list.
///
/// `[name]` refers to a tag (`artist`, `artists`, `album`, `album_artist`,
/// `title`, `track`), `<...>` is an optional group, `\\` takes the next
/// character literally, and other text is literal. The first error met,
/// scanning from the left, is returned; a template that ends inside a tag
/// reference or right after `\\` is rejected, and a group still open at the
/// end is `UnclosedOptional`.
pub fn process_meta_format(format: &str) -> (r: Result<Vec<MetaFormat>, MetaFormatError>)
    ensures
        meta_outcome(r) == compile_meta(format@),
{
    let chars = chars_of(format);
    let mut frames: Vec<Vec<MetaFormat>> = Vec::new();
    frames.push(Vec::new());
    let mut scan = MetaScanner {
        state: MetaState::Text,
        buffer: Vec::new(),
        start: 0,
        open: 0,
        frames,
    };
    assert(scan.model() == initial_meta_scan()) by {
        assert(frames_view(scan.frames@) == seq![Seq::<MetaNode>::empty()]);
    }
    for i in 0..chars.len()
        invariant
            chars@ == format@,
            scan.wf(),
            scan_meta(chars@.subrange(0, i as int)) == Ok::<MetaScan, MetaFault>(scan.model()),
    {
        assert(chars@.subrange(0, i + 1).drop_last() == chars@.subrange(0, i as int));
        let r = scan.step(i, chars[i]);
        match r {
            Ok(_) => {},
            Err(e) => {
                proof {
                    lemma_meta_error_stays(chars@, i as int + 1);
                }
                return Err(e);
            },
        }
    }
    assert(chars@.subrange(0, chars@.len() as int) == chars@);
    let ghost end = scan.model();
    assert(scan_meta(format@) == Ok::<MetaScan, MetaFault>(end));
    if scan.state == MetaState::Escape {
        return Err(MetaFormatError::Unexpected(chars.len() - 1, '\\'));
    }
    if scan.state == MetaState::Block {
        return Err(MetaFormatError::Unexpected(scan.open, '['));
    }
    if scan.frames.len() > 1 {
        return Err(MetaFormatError::UnclosedOptional);
    }
    scan.flush();
    assert(scan.model() == meta_flushed(end));
    assert(scan.model().frames[0] == metas_view(scan.frames@[0]@));
    assert(frames_view(scan.frames@).len() == scan.frames@.len());
    assert(scan.frames@.len() == 1);
    let base = scan.frames.pop().unwrap();
    assert(metas_view(base@) == meta_flushed(end).frames[0]);
    Ok(base)
}

/// Once the scan has failed on a prefix, it fails the same way on the
/// whole text.
proof fn lemma_meta_error_stays(t: Seq<char>, k: int)
    requires
        0 <= k <= t.len(),
        scan_meta(t.subrange(0, k)) is Err,
    ensures
        scan_meta(t) == scan_meta(t.subrange(0, k)),
    decreases t.len() - k,
{
    if k < t.len() {
        assert(t.drop_last().subrange(0, k) == t.subrange(0, k));
        lemma_meta_error_stays(t.drop_last(), k);
    } else {
        assert(t.subrange(0, k) == t);
    }
}

/// No literal of `ns`, nor of any group inside it at any depth, is empty,
/// and no two literals of one node list stand side by side.
pub open spec fn nodes_apart(ns: Seq<MetaNode>) -> bool
    decreases ns,
{
    if ns.len() == 0 {
        true
    } else {
        let rest = ns.drop_last();
        &&& nodes_apart(rest)
        &&& match ns.last() {
            MetaNode::Literal(t) => t.len() > 0 && (rest.len() == 0 || !(rest.last() is Literal)),
            MetaNode::Optional(inner) => nodes_apart(inner),
            _ => true,
        }
    }
}

proof fn lemma_nodes_apart_push(ns: Seq<MetaNode>, n: MetaNode)
    requires
        nodes_apart(ns),
        n matches MetaNode::Literal(t) ==> t.len() > 0 && (ns.len() == 0 || !(ns.last() is Literal)),
        n matches MetaNode::Optional(inner) ==> nodes_apart(inner),
    ensures
        nodes_apart(ns.push(n)),
{
    assert(ns.push(n).drop_last() == ns);
}

/// The innermost group may not end in a literal, except while a tag name
/// is being read.
pub open spec fn top_open_to_text(s: MetaScan) -> bool {
    s.state != MetaState::Block ==> (s.frames.last().len() == 0 || !(
    s.frames.last().last() is Literal))
}

/// What the scan keeps true of the groups it has built.
spec fn meta_scan_apart(s: MetaScan) -> bool {
    &&& s.frames.len() >= 1
    &&& forall|k: int| 0 <= k < s.frames.len() ==> nodes_apart(#[trigger] s.frames[k])
    &&& top_open_to_text(s)
}

proof fn lemma_add_node_apart(frames: Seq<Seq<MetaNode>>, n: MetaNode)
    requires
        frames.len() >= 1,
        forall|k: int| 0 <= k < frames.len() ==> nodes_apart(#[trigger] frames[k]),
        n matches MetaNode::Literal(t) ==> t.len() > 0 && (frames.last().len() == 0 || !(
        frames.last().last() is Literal)),
        n matches MetaNode::Optional(inner) ==> nodes_apart(inner),
    ensures
        forall|k: int|
            0 <= k < add_node(frames, n).len() ==> nodes_apart(#[trigger] add_node(frames, n)[k]),
        add_node(frames, n).len() == frames.len(),
        add_node(frames, n).last() == frames.last().push(n),
{
    lemma_nodes_apart_push(frames.last(), n);
}

proof fn lemma_meta_flushed_apart(s: MetaScan)
    requires
        meta_scan_apart(s),
        s.state == MetaState::Text,
    ensures
        meta_flushed(s).frames.len() == s.frames.len(),
        forall|k: int|
            0 <= k < meta_flushed(s).frames.len() ==> nodes_apart(
                #[trigger] meta_flushed(s).frames[k],
            ),
{
    if s.buffer.len() > 0 {
        lemma_add_node_apart(s.frames, MetaNode::Literal(s.buffer));
    }
}

proof fn lemma_meta_scan_apart(t: Seq<char>)
    requires
        scan_meta(t) is Ok,
    ensures
        meta_scan_apart(scan_meta(t)->Ok_0),
    decreases t.len(),
{
    if t.len() > 0 {
        let p = t.drop_last();
        let c = t.last();
        lemma_meta_scan_apart(p);
        let s = scan_meta(p)->Ok_0;
        let pos = (t.len() - 1) as nat;
        assert(scan_meta(t) == meta_step(s, pos, c));
        if s.state == MetaState::Text && c == '[' {
            lemma_meta_flushed_apart(s);
        } else if s.state == MetaState::Block && c == ']' {
            if let Some(n) = tag_node(trim(s.buffer)) {
                lemma_add_node_apart(s.frames, n);
            }
        } else if s.state == MetaState::Text && c == '<' {
            lemma_meta_flushed_apart(s);
            let f = meta_flushed(s).frames;
            let g = f.push(seq![]);
            assert forall|k: int| 0 <= k < g.len() implies nodes_apart(#[trigger] g[k]) by {
                if k < f.len() {
                    assert(g[k] == f[k]);
                }
            }
        } else if s.state == MetaState::Text && c == '>' && s.frames.len() > 1 {
            lemma_meta_flushed_apart(s);
            let f = meta_flushed(s).frames;
            let rest = f.drop_last();
            assert(nodes_apart(f[f.len() - 1]));
            assert forall|k: int| 0 <= k < rest.len() implies nodes_apart(#[trigger] rest[k]) by {
                assert(rest[k] == f[k]);
            }
            lemma_add_node_apart(rest, MetaNode::Optional(f.last()));
        }
    }
}

/// A compiled metadata template never holds an empty literal, nor two
/// literals side by side, at any depth.
pub proof fn lemma_meta_literals_apart(t: Seq<char>)
    requires
        compile_meta(t) is Ok,
    ensures
        nodes_apart(compile_meta(t)->Ok_0),
{
    lemma_meta_scan_apart(t);
    let s = scan_meta(t)->Ok_0;
    lemma_meta_flushed_apart(s);
    assert(nodes_apart(meta_flushed(s).frames[0]));
}

/// Whether `c` has a meaning of its own in a metadata template.
pub open spec fn is_meta_control(c: char) -> bool {
    c == '\\' || c == '[' || c == ']' || c == '<' || c == '>'
}

proof fn lemma_plain_meta_scan(t: Seq<char>)
    requires
        forall|i: int| 0 <= i < t.len() ==> !is_meta_control(#[trigger] t[i]),
    ensures
        scan_meta(t) == Ok::<MetaScan, MetaFault>(MetaScan { buffer: t, ..initial_meta_scan() }),
    decreases t.len(),
{
    if t.len() > 0 {
        let p = t.drop_last();
        assert forall|i: int| 0 <= i < p.len() implies !is_meta_control(#[trigger] p[i]) by {
            assert(p[i] == t[i]);
        }
        lemma_plain_meta_scan(p);
        assert(!is_meta_control(t[t.len() - 1]));
        assert(p.push(t.last()) == t);
        let s = MetaScan { buffer: p, ..initial_meta_scan() };
        assert(meta_step(s, (t.len() - 1) as nat, t.last()) == Ok::<MetaScan, MetaFault>(
            MetaScan { buffer: t, ..initial_meta_scan() },
        ));
    } else {
        assert(t == Seq::<char>::empty());
    }
}

/// A template without `\`, `[`, `]`, `<` and `>` is one literal, or nothing
/// when empty.
pub proof fn lemma_plain_meta_is_one_literal(t: Seq<char>)
    requires
        forall|i: int| 0 <= i < t.len() ==> !is_meta_control(#[trigger] t[i]),
    ensures
        compile_meta(t) == if t.len() == 0 {
            Ok::<Seq<MetaNode>, MetaFault>(seq![])
        } else {
            Ok::<Seq<MetaNode>, MetaFault>(seq![MetaNode::Literal(t)])
        },
{
    lemma_plain_meta_scan(t);
    if t.len() > 0 {
        assert(add_node(seq![seq![]], MetaNode::Literal(t))[0] == seq![MetaNode::Literal(t)]);
    }
}

} // verus!
