//! The streamer's decisions: what the now-playing display shows, which
//! metadata wins, how replies of the player's IPC protocol are matched to
//! their requests, and which URLs may be played.

use vstd::prelude::*;
use crate::names::{chars_of, is_white_space, trim, trim_start, trim_end, white_space, skip_white_from, skip_white_end};

verus! {

/// Metadata supplied by the caller when starting playback.
#[derive(Debug, Clone)]
pub struct TrackMeta {
    pub title: String,
    pub artist: String,
    pub album: String,
    pub art_url: String,
    pub source: String,
}

impl Default for TrackMeta {
    /// All fields empty.
    fn default() -> (m: TrackMeta)
        ensures
            m.title@.len() == 0,
            m.artist@.len() == 0,
            m.album@.len() == 0,
            m.art_url@.len() == 0,
            m.source@.len() == 0,
    {
        TrackMeta {
            title: String::new(),
            artist: String::new(),
            album: String::new(),
            art_url: String::new(),
            source: String::new(),
        }
    }
}

impl TrackMeta {
    /// The metadata of a URL load: a missing source is reported as `stream`.
    pub fn for_load(self) -> (m: TrackMeta)
        ensures
            m.title == self.title,
            m.artist == self.artist,
            m.album == self.album,
            m.art_url == self.art_url,
            m.source@ == if self.source@.len() == 0 {
                "stream"@
            } else {
                self.source@
            },
    {
        let mut m = self;
        if m.source.as_str().is_empty() {
            m.source = String::from_str("stream");
        }
        m
    }
}

/// `s` has a character that is not white space.
pub open spec fn visible(s: Seq<char>) -> bool {
    exists|i: int| 0 <= i < s.len() && !is_white_space(#[trigger] s[i])
}

proof fn lemma_trim_start_empty(s: Seq<char>)
    ensures
        trim_start(s).len() == 0 <==> !visible(s),
        trim_start(s).len() > 0 ==> !is_white_space(trim_start(s)[0]),
    decreases s.len(),
{
    if s.len() > 0 && is_white_space(s[0]) {
        lemma_trim_start_empty(s.drop_first());
        if visible(s) {
            let i = choose|i: int| 0 <= i < s.len() && !is_white_space(#[trigger] s[i]);
            assert(s.drop_first()[i - 1] == s[i]);
        }
        if visible(s.drop_first()) {
            let i = choose|i: int| 0 <= i < s.drop_first().len() && !is_white_space(
                #[trigger] s.drop_first()[i],
            );
            assert(s[i + 1] == s.drop_first()[i]);
        }
    } else if s.len() > 0 {
        assert(!is_white_space(s[0]));
    }
}

proof fn lemma_trim_end_keeps_first(t: Seq<char>)
    requires
        t.len() > 0,
        !is_white_space(t[0]),
    ensures
        trim_end(t).len() > 0,
    decreases t.len(),
{
    if is_white_space(t.last()) {
        assert(t.len() > 1);
        assert(t.drop_last()[0] == t[0]);
        lemma_trim_end_keeps_first(t.drop_last());
    }
}

/// `str::trim` leaves something exactly when there is a visible character.
pub proof fn lemma_trim_empty(s: Seq<char>)
    ensures
        trim(s).len() > 0 <==> visible(s),
{
    lemma_trim_start_empty(s);
    if trim_start(s).len() > 0 {
        lemma_trim_end_keeps_first(trim_start(s));
    }
}

/// `!s.trim().is_empty()`.
pub fn has_visible(s: &String) -> (b: bool)
    ensures
        b == (trim(s@).len() > 0),
{
    proof {
        lemma_trim_empty(s@);
    }
    let cs = chars_of(s.as_str());
    let mut i: usize = 0;
    while i < cs.len()
        invariant
            cs@ == s@,
            i <= cs@.len(),
            forall|j: int| 0 <= j < i ==> is_white_space(#[trigger] cs@[j]),
        decreases cs@.len() - i,
    {
        if !white_space(cs[i]) {
            assert(!is_white_space(s@[i as int]));
            assert(visible(s@));
            proof {
                lemma_trim_empty(s@);
            }
            return true;
        }
        i = i + 1;
    }
    false
}

/// The first candidate that is not blank, or the empty string.
pub open spec fn first_visible(cands: Seq<String>) -> Seq<char>
    decreases cands.len(),
{
    if cands.len() == 0 {
        Seq::empty()
    } else if trim(cands[0]@).len() > 0 {
        cands[0]@
    } else {
        first_visible(cands.drop_first())
    }
}

/// The first candidate that is not blank (empty or only white space), or an
/// empty string when every candidate is blank.
pub fn first_nonempty(cands: &[String]) -> (r: String)
    ensures
        r@ == first_visible(cands@),
{
    let mut i: usize = 0;
    assert(cands@.subrange(0, cands@.len() as int) =~= cands@);
    while i < cands.len()
        invariant
            i <= cands@.len(),
            first_visible(cands@) == first_visible(cands@.subrange(i as int, cands@.len() as int)),
        decreases cands@.len() - i,
    {
        let ghost rest = cands@.subrange(i as int, cands@.len() as int);
        assert(rest[0] == cands@[i as int]);
        if has_visible(&cands[i]) {
            return cands[i].clone();
        }
        assert(rest.drop_first() =~= cands@.subrange(i + 1, cands@.len() as int));
        i = i + 1;
    }
    String::new()
}

/// What the player is doing.
#[derive(Debug, Clone, Copy, PartialEq, Eq)]
pub enum PlayState {
    Stopped,
    Loading,
    Playing,
    Paused,
}

impl PlayState {
    /// The name shown to the UI.
    pub fn as_str(self) -> (s: &'static str)
        ensures
            s@ == match self {
                PlayState::Stopped => "stopped"@,
                PlayState::Loading => "loading"@,
                PlayState::Playing => "playing"@,
                PlayState::Paused => "paused"@,
            },
    {
        match self {
            PlayState::Stopped => "stopped",
            PlayState::Loading => "loading",
            PlayState::Playing => "playing",
            PlayState::Paused => "paused",
        }
    }
}

/// One poll of the player: a load in progress ends as soon as the player is
/// no longer idle; then the state is loading, stopped (idle), paused or
/// playing, in that order of precedence. Returns the new loading flag and the
/// state.
pub fn poll_state(loading: bool, idle: bool, paused: bool) -> (r: (bool, PlayState))
    ensures
        r.0 == (loading && idle),
        r.1 == if r.0 {
            PlayState::Loading
        } else if idle {
            PlayState::Stopped
        } else if paused {
            PlayState::Paused
        } else {
            PlayState::Playing
        },
{
    let still_loading = loading && idle;
    let state = if still_loading {
        PlayState::Loading
    } else if idle {
        PlayState::Stopped
    } else if paused {
        PlayState::Paused
    } else {
        PlayState::Playing
    };
    (still_loading, state)
}

/// The source shown for player output: the caller's source if it gave one,
/// otherwise `idle` when the player is idle and `stream` when it plays.
pub fn poll_source(meta_source: &String, idle: bool) -> (s: String)
    ensures
        s@ == if meta_source@.len() > 0 {
            meta_source@
        } else if idle {
            "idle"@
        } else {
            "stream"@
        },
{
    if !meta_source.as_str().is_empty() {
        meta_source.clone()
    } else if idle {
        String::from_str("idle")
    } else {
        String::from_str("stream")
    }
}

/// State shown while a non-player source (generator, capture) is active:
/// stopped for `idle`, playing otherwise.
pub fn external_state(source: &str) -> (st: PlayState)
    ensures
        st == if source@ == "idle"@ {
            PlayState::Stopped
        } else {
            PlayState::Playing
        },
{
    proof {
        reveal_strlit("idle");
    }
    let cs = chars_of(source);
    if cs.len() == 4 && cs[0] == 'i' && cs[1] == 'd' && cs[2] == 'l' && cs[3] == 'e' {
        assert(source@ =~= "idle"@);
        PlayState::Stopped
    } else {
        proof {
            if source@ == "idle"@ {
                assert(cs@[0] == 'i' && cs@[1] == 'd' && cs@[2] == 'l' && cs@[3] == 'e');
            }
        }
        PlayState::Playing
    }
}

/// ASCII lower case of `c` (other characters unchanged).
pub open spec fn ascii_lower(c: char) -> char {
    if 'A' <= c <= 'Z' {
        ((c as u32) + 32) as char
    } else {
        c
    }
}

/// `str::eq_ignore_ascii_case`.
pub open spec fn eq_ignore_ascii_case(a: Seq<char>, b: Seq<char>) -> bool {
    &&& a.len() == b.len()
    &&& forall|i: int| 0 <= i < a.len() ==> ascii_lower(#[trigger] a[i]) == ascii_lower(b[i])
}

proof fn lemma_fold_char(c: char)
    ensures
        'A' <= c <= 'Z' ==> ascii_lower(c) as u32 == (c as u32) + 32,
        !('A' <= c <= 'Z') ==> ascii_lower(c) == c,
{
}

proof fn lemma_fold_pair(x: char, y: char)
    requires
        'A' <= x <= 'Z',
        y as u32 == (x as u32) + 32,
    ensures
        ascii_lower(x) == ascii_lower(y),
{
    lemma_fold_char(x);
    lemma_fold_char(y);
    assert(!('A' <= y <= 'Z'));
    assert(ascii_lower(x) as u32 == y as u32);
}

/// Law: ASCII case folding lowers every upper-case letter `A`..`Z` by 32
/// (to its lower-case letter) and leaves every other character as it is, so
/// two keys that differ only in the case of ASCII letters always match.
pub proof fn law_ascii_case_folding(a: Seq<char>, b: Seq<char>)
    ensures
        forall|c: char| 'A' <= c <= 'Z' ==> (#[trigger] ascii_lower(c)) as u32 == (c as u32) + 32,
        forall|c: char| !('A' <= c <= 'Z') ==> #[trigger] ascii_lower(c) == c,
        (a.len() == b.len() && forall|i: int|
            0 <= i < a.len() ==> (#[trigger] a[i] == b[i] || ('A' <= a[i] <= 'Z' && b[i] as u32 == (
            a[i] as u32) + 32) || ('A' <= b[i] <= 'Z' && a[i] as u32 == (b[i] as u32) + 32)))
            ==> eq_ignore_ascii_case(a, b),
{
    assert forall|c: char| 'A' <= c <= 'Z' implies (#[trigger] ascii_lower(c)) as u32 == (c as u32)
        + 32 by {
        lemma_fold_char(c);
    }
    assert forall|c: char| !('A' <= c <= 'Z') implies #[trigger] ascii_lower(c) == c by {
        lemma_fold_char(c);
    }
    if a.len() == b.len() && forall|i: int|
        0 <= i < a.len() ==> (#[trigger] a[i] == b[i] || ('A' <= a[i] <= 'Z' && b[i] as u32 == (
        a[i] as u32) + 32) || ('A' <= b[i] <= 'Z' && a[i] as u32 == (b[i] as u32) + 32)) {
        assert forall|i: int| 0 <= i < a.len() implies ascii_lower(#[trigger] a[i]) == ascii_lower(
            b[i],
        ) by {
            if a[i] == b[i] {
            } else if 'A' <= a[i] <= 'Z' && b[i] as u32 == (a[i] as u32) + 32 {
                lemma_fold_pair(a[i], b[i]);
            } else {
                lemma_fold_pair(b[i], a[i]);
            }
        }
    }
}

fn lower(c: char) -> (d: char)
    ensures
        d == ascii_lower(c),
{
    if 'A' <= c && c <= 'Z' {
        let u = c as u32 + 32;
        proof {
            assert(0x61 <= u <= 0x7A);
        }
        char_of(u)
    } else {
        c
    }
}

/// The ASCII letter with code `u`.
fn char_of(u: u32) -> (c: char)
    requires
        0x61 <= u <= 0x7A,
    ensures
        c == u as char,
{
    let b = u as u8;
    b as char
}

fn same_ignoring_ascii_case(a: &str, b: &str) -> (r: bool)
    ensures
        r == eq_ignore_ascii_case(a@, b@),
{
    let x = chars_of(a);
    let y = chars_of(b);
    if x.len() != y.len() {
        return false;
    }
    let mut i: usize = 0;
    while i < x.len()
        invariant
            x@ == a@,
            y@ == b@,
            x@.len() == y@.len(),
            i <= x@.len(),
            forall|j: int| 0 <= j < i ==> ascii_lower(#[trigger] x@[j]) == ascii_lower(y@[j]),
        decreases x@.len() - i,
    {
        if lower(x[i]) != lower(y[i]) {
            return false;
        }
        i = i + 1;
    }
    true
}

/// A metadata tag: its key and, when the value is a string, that string.
pub struct Tag {
    pub key: String,
    pub value: Option<String>,
}

/// Tag `i` matches `key` ignoring ASCII case and its value is a string.
pub open spec fn is_lookup_hit(tags: Seq<Tag>, key: Seq<char>, i: int) -> bool {
    eq_ignore_ascii_case(tags[i].key@, key) && tags[i].value is Some
}

/// What a case-insensitive lookup of `key` finds: the string value of the
/// first matching tag, empty when there is none.
pub open spec fn tag_value(tags: Seq<Tag>, key: Seq<char>) -> Seq<char> {
    if exists|i: int| 0 <= i < tags.len() && is_lookup_hit(tags, key, i) {
        let i = choose|i: int|
            0 <= i < tags.len() && is_lookup_hit(tags, key, i) && forall|j: int|
                0 <= j < i ==> !is_lookup_hit(tags, key, j);
        tags[i].value->0@
    } else {
        Seq::empty()
    }
}

/// Case-insensitive lookup of a tag: the string value of the first tag whose
/// key matches ignoring ASCII case and whose value is a string; empty when
/// there is none.
pub fn tag_lookup(tags: &Vec<Tag>, key: &str) -> (r: String)
    ensures
        r@ == tag_value(tags@, key@),
{
    let mut i: usize = 0;
    while i < tags.len()
        invariant
            i <= tags@.len(),
            forall|j: int| 0 <= j < i ==> !is_lookup_hit(tags@, key@, j),
        decreases tags@.len() - i,
    {
        let t = &tags[i];
        if same_ignoring_ascii_case(t.key.as_str(), key) {
            match &t.value {
                Some(s) => {
                    proof {
                        assert(is_lookup_hit(tags@, key@, i as int));
                        let k = choose|k: int|
                            0 <= k < tags@.len() && is_lookup_hit(tags@, key@, k) && forall|j: int|
                                0 <= j < k ==> !is_lookup_hit(tags@, key@, j);
                        if k < i {
                        } else if k > i {
                            assert(!is_lookup_hit(tags@, key@, i as int));
                        }
                    }
                    return s.clone();
                },
                None => {},
            }
        }
        i = i + 1;
    }
    let r = String::new();
    assert(r@ =~= Seq::<char>::empty());
    r
}

/// The first candidate that is not blank (empty or only white space), or the
/// empty text when every candidate is blank.
pub open spec fn first_visible_text(cands: Seq<Seq<char>>) -> Seq<char>
    decreases cands.len(),
{
    if cands.len() == 0 {
        Seq::empty()
    } else if trim(cands[0]).len() > 0 {
        cands[0]
    } else {
        first_visible_text(cands.drop_first())
    }
}

fn first_of2(a: &String, b: &String) -> (r: String)
    ensures
        r@ == first_visible_text(seq![a@, b@]),
{
    let ghost c = seq![a@, b@];
    assert(c.drop_first() =~= seq![b@]);
    assert(c.drop_first().drop_first() =~= Seq::<Seq<char>>::empty());
    proof {
        reveal_with_fuel(first_visible_text, 3);
    }
    if has_visible(a) {
        a.clone()
    } else if has_visible(b) {
        b.clone()
    } else {
        let r = String::new();
        assert(r@ =~= Seq::<char>::empty());
        r
    }
}

fn first_of3(a: &String, b: &String, c: &String) -> (r: String)
    ensures
        r@ == first_visible_text(seq![a@, b@, c@]),
{
    let ghost s = seq![a@, b@, c@];
    assert(s.drop_first() =~= seq![b@, c@]);
    assert(seq![b@, c@].drop_first() =~= seq![c@]);
    assert(seq![c@].drop_first() =~= Seq::<Seq<char>>::empty());
    proof {
        reveal_with_fuel(first_visible_text, 4);
    }
    if has_visible(a) {
        a.clone()
    } else if has_visible(b) {
        b.clone()
    } else if has_visible(c) {
        c.clone()
    } else {
        let r = String::new();
        assert(r@ =~= Seq::<char>::empty());
        r
    }
}

/// What the now-playing display shows after one poll of the player.
pub struct NowPlaying {
    /// Whether a load is still in progress.
    pub loading: bool,
    pub state: PlayState,
    pub title: String,
    pub artist: String,
    pub album: String,
    pub art_url: String,
    pub source: String,
}

/// One poll of the player: its state (see `poll_state`) and what is shown.
/// The caller's metadata wins over the player's own tags: the title is the
/// caller's, else the `title` tag, else the player's media title; the artist
/// is the caller's, else the `artist` tag, else the `album_artist` tag; the
/// album is the caller's, else the `album` tag (blank values are skipped).
/// The art URL is the caller's, and the source is as `poll_source` shows it.
pub fn now_playing(
    meta: &TrackMeta,
    tags: &Vec<Tag>,
    media_title: &String,
    loading: bool,
    idle: bool,
    paused: bool,
) -> (n: NowPlaying)
    ensures
        n.loading == (loading && idle),
        n.state == if n.loading {
            PlayState::Loading
        } else if idle {
            PlayState::Stopped
        } else if paused {
            PlayState::Paused
        } else {
            PlayState::Playing
        },
        n.title@ == first_visible_text(
            seq![meta.title@, tag_value(tags@, "title"@), media_title@],
        ),
        n.artist@ == first_visible_text(
            seq![meta.artist@, tag_value(tags@, "artist"@), tag_value(tags@, "album_artist"@)],
        ),
        n.album@ == first_visible_text(seq![meta.album@, tag_value(tags@, "album"@)]),
        n.art_url@ == meta.art_url@,
        n.source@ == if meta.source@.len() > 0 {
            meta.source@
        } else if idle {
            "idle"@
        } else {
            "stream"@
        },
{
    let (still_loading, state) = poll_state(loading, idle, paused);
    let tag_title = tag_lookup(tags, "title");
    let tag_artist = tag_lookup(tags, "artist");
    let tag_album_artist = tag_lookup(tags, "album_artist");
    let tag_album = tag_lookup(tags, "album");
    NowPlaying {
        loading: still_loading,
        state,
        title: first_of3(&meta.title, &tag_title, media_title),
        artist: first_of3(&meta.artist, &tag_artist, &tag_album_artist),
        album: first_of2(&meta.album, &tag_album),
        art_url: meta.art_url.clone(),
        source: poll_source(&meta.source, idle),
    }
}

/// Collects the replies of a batch of requests numbered `1..=n`, matching
/// each reply to its request by id. A request that failed, or whose reply
/// never came, has no reply value; replies for unknown ids and repeated
/// replies are ignored.
pub struct ReplyCollector<V> {
    slots: Vec<Option<V>>,
    answered: Vec<bool>,
    filled: usize,
}

impl<V> ReplyCollector<V> {
    /// The reply value of each request, by request (`None`: failed or not
    /// answered yet).
    pub closed spec fn spec_slots(&self) -> Seq<Option<V>> {
        self.slots@
    }

    /// Whether each request has been answered (successfully or not).
    pub closed spec fn spec_answered(&self) -> Seq<bool> {
        self.answered@
    }

    pub closed spec fn wf(&self) -> bool {
        &&& self.slots@.len() == self.answered@.len()
        &&& self.filled <= self.answered@.len()
        &&& self.filled == answered_count(self.answered@)
    }

    /// Room for the replies to `n` requests, none received.
    pub fn new(n: usize) -> (c: Self)
        ensures
            c.wf(),
            c.spec_slots() == Seq::new(n as nat, |i: int| None::<V>),
            c.spec_answered() == Seq::new(n as nat, |i: int| false),
    {
        let mut slots: Vec<Option<V>> = Vec::new();
        let mut answered: Vec<bool> = Vec::new();
        let mut i: usize = 0;
        while i < n
            invariant
                i <= n,
                slots@ == Seq::new(i as nat, |k: int| None::<V>),
                answered@ == Seq::new(i as nat, |k: int| false),
            decreases n - i,
        {
            slots.push(None);
            answered.push(false);
            i = i + 1;
            assert(slots@ =~= Seq::new(i as nat, |k: int| None::<V>));
            assert(answered@ =~= Seq::new(i as nat, |k: int| false));
        }
        proof {
            lemma_answered_none(n as nat);
        }
        ReplyCollector { slots, answered, filled: 0 }
    }

    /// Record the reply to request `id`. A successful reply records its data,
    /// or `null` when it carries none; a failed one only marks the request
    /// answered and leaves it without a value.
    pub fn accept(&mut self, id: i64, success: bool, data: Option<V>, null: V)
        requires
            old(self).wf(),
        ensures
            final(self).wf(),
            final(self).spec_answered() == if 1 <= id <= old(self).spec_answered().len()
                && !old(self).spec_answered()[id - 1] {
                old(self).spec_answered().update(id - 1, true)
            } else {
                old(self).spec_answered()
            },
            final(self).spec_slots() == if 1 <= id <= old(self).spec_answered().len()
                && !old(self).spec_answered()[id - 1] && success {
                old(self).spec_slots().update(
                    id - 1,
                    Some(
                        if data is Some {
                            data->0
                        } else {
                            null
                        },
                    ),
                )
            } else {
                old(self).spec_slots()
            },
    {
        if id < 1 {
            return ;
        }
        let idx = (id - 1) as u64;
        if idx >= self.answered.len() as u64 {
            return ;
        }
        let idx = idx as usize;
        if self.answered[idx] {
            return ;
        }
        if success {
            let v = match data {
                Some(d) => d,
                None => null,
            };
            self.slots.set(idx, Some(v));
        }
        let ghost before = self.answered@;
        self.answered.set(idx, true);
        proof {
            lemma_answered_update(before, idx as int);
        }
        self.filled = self.filled + 1;
    }

    /// Every request has been answered.
    pub fn complete(&self) -> (b: bool)
        requires
            self.wf(),
        ensures
            b == (forall|i: int| 0 <= i < self.spec_answered().len() ==> #[trigger] self.spec_answered()[i]),
    {
        proof {
            lemma_answered_all(self.answered@);
            assert(self.spec_answered() == self.answered@);
        }
        self.filled == self.answered.len()
    }

    /// The reply values, by request (index `i` holds the reply to request
    /// `i + 1`; `None` where it failed or never came).
    pub fn into_replies(self) -> (r: Vec<Option<V>>)
        ensures
            r@ == self.spec_slots(),
    {
        self.slots
    }
}

/// Number of answered requests.
pub open spec fn answered_count(s: Seq<bool>) -> nat
    decreases s.len(),
{
    if s.len() == 0 {
        0
    } else {
        answered_count(s.drop_last()) + if s.last() {
            1nat
        } else {
            0nat
        }
    }
}

proof fn lemma_answered_none(n: nat)
    ensures
        answered_count(Seq::new(n, |i: int| false)) == 0,
    decreases n,
{
    if n > 0 {
        assert(Seq::new(n, |i: int| false).drop_last() =~= Seq::new((n - 1) as nat, |i: int| false));
        lemma_answered_none((n - 1) as nat);
    }
}

proof fn lemma_answered_bound(s: Seq<bool>)
    ensures
        answered_count(s) <= s.len(),
    decreases s.len(),
{
    if s.len() > 0 {
        lemma_answered_bound(s.drop_last());
    }
}

proof fn lemma_answered_all(s: Seq<bool>)
    ensures
        answered_count(s) == s.len() <==> (forall|i: int| 0 <= i < s.len() ==> #[trigger] s[i]),
    decreases s.len(),
{
    if s.len() > 0 {
        lemma_answered_all(s.drop_last());
        lemma_answered_bound(s.drop_last());
        if forall|i: int| 0 <= i < s.len() ==> #[trigger] s[i] {
            assert forall|i: int| 0 <= i < s.drop_last().len() implies #[trigger] s.drop_last()[i] by {
                assert(s[i]);
            }
        }
        if answered_count(s) == s.len() {
            assert forall|i: int| 0 <= i < s.len() implies #[trigger] s[i] by {
                if i < s.len() - 1 {
                    assert(s.drop_last()[i]);
                }
            }
        }
    }
}

proof fn lemma_answered_update(s: Seq<bool>, i: int)
    requires
        0 <= i < s.len(),
        !s[i],
    ensures
        answered_count(s.update(i, true)) == answered_count(s) + 1,
        answered_count(s.update(i, true)) <= s.len(),
    decreases s.len(),
{
    lemma_answered_bound(s.update(i, true));
    if i == s.len() - 1 {
        assert(s.update(i, true).drop_last() =~= s.drop_last());
    } else {
        lemma_answered_update(s.drop_last(), i);
        assert(s.update(i, true).drop_last() =~= s.drop_last().update(i, true));
    }
}

/// Why a URL cannot be played.
#[derive(Debug, Clone, Copy, PartialEq, Eq)]
pub enum UrlError {
    /// The URL does not start with `http://`, `https://` or `file://`.
    Scheme,
}

pub open spec fn playable(u: Seq<char>) -> bool {
    ||| "http://"@.is_prefix_of(u)
    ||| "https://"@.is_prefix_of(u)
    ||| "file://"@.is_prefix_of(u)
}

fn starts_with(cs: &Vec<char>, prefix: &str) -> (b: bool)
    ensures
        b == prefix@.is_prefix_of(cs@),
{
    let p = chars_of(prefix);
    if p.len() > cs.len() {
        return false;
    }
    let mut i: usize = 0;
    while i < p.len()
        invariant
            p@ == prefix@,
            p@.len() <= cs@.len(),
            i <= p@.len(),
            forall|j: int| 0 <= j < i ==> p@[j] == cs@[j],
        decreases p@.len() - i,
    {
        if p[i] != cs[i] {
            return false;
        }
        i = i + 1;
    }
    assert(p@ =~= cs@.subrange(0, p@.len() as int));
    true
}

/// The URL to play: `url` trimmed of white space, which must start with
/// `http://`, `https://` or `file://`.
pub fn check_play_url(url: &str) -> (r: Result<String, UrlError>)
    ensures
        playable(trim(url@)) ==> (r matches Ok(u) && u@ == trim(url@)),
        !playable(trim(url@)) ==> r == Err::<String, UrlError>(UrlError::Scheme),
{
    let cs = chars_of(url);
    let t = trim_chars(url, &cs);
    let tc = chars_of(t.as_str());
    if starts_with(&tc, "http://") || starts_with(&tc, "https://") || starts_with(&tc, "file://") {
        Ok(t)
    } else {
        Err(UrlError::Scheme)
    }
}

/// `str::trim` of `s`, given its characters `cs`.
fn trim_chars(s: &str, cs: &Vec<char>) -> (t: String)
    requires
        cs@ == s@,
    ensures
        t@ == trim(s@),
{
    assert(cs@.subrange(0, cs@.len() as int) =~= cs@);
    let i = skip_white_from(cs, 0, cs.len());
    let j = skip_white_end(cs, i, cs.len());
    String::from_str(s.substring_char(i, j))
}

} // verus!
