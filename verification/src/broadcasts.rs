//! Live broadcasts: starting one, joining, roles, speaking, reactions, and
//! finding public broadcasts by tag and language.

use vstd::prelude::*;
use crate::accounts::UserView;
use crate::api::{
    error, fails_with, outcome, text_outcome, ApiError, BAD_REQUEST, CONFLICT, FORBIDDEN, NOT_FOUND,
    TOO_MANY_REQUESTS,
};
use crate::clock::{in_calendar_range, rfc3339, rfc3339_text, secs_of, subsec_of};
use crate::ids::{hex32, token_hex};
use crate::text::{
    alphanumeric, byte_len, char_is_alphanumeric, char_lowercase, char_to_lowercase, chars_of,
    concat_chars, copy_range, lemma_byte_len_bounds, lemma_take_until_len, lemma_take_until_prefix, lowercase_chars,
    lowercase_text, same_chars, same_text, string_from_chars, take_until, text_byte_len, trim,
    trim_chars, trim_start_char, trim_start_matching, trim_str,
};

verus! {

/// A live broadcast as listed.
#[derive(Clone)]
pub struct BroadcastView {
    pub id: i32,
    pub room_id: String,
    pub host: UserView,
    pub member_count: i64,
    pub title: String,
    pub tags: Vec<String>,
    pub is_public: bool,
}

/// The live broadcast a user takes part in, and in which role.
pub struct MembershipView {
    pub broadcast_id: i32,
    pub room_id: String,
    pub role: String,
    pub host: UserView,
    pub title: String,
}

/// A request to join, as the host sees it.
pub struct JoinRequestView {
    pub id: i32,
    pub broadcast_id: i32,
    pub from: UserView,
    pub status: String,
    pub granted_role: Option<String>,
}

/// A request to join, as the user who sent it sees it.
pub struct OutgoingRequestView {
    pub id: i32,
    pub broadcast_id: i32,
    pub host: UserView,
    pub status: String,
    pub granted_role: Option<String>,
}

/// A member of a live broadcast.
pub struct ParticipantView {
    pub user: UserView,
    pub role: String,
    pub speaking: bool,
}

/// A live reaction.
pub struct ReactionView {
    pub id: i32,
    pub emoji: String,
    pub from: UserView,
    pub created_at: String,
}

/// Everything the studio page shows a user.
pub struct StudioView {
    pub broadcasts: Vec<BroadcastView>,
    pub public_broadcasts: Vec<BroadcastView>,
    pub membership: Option<MembershipView>,
    pub incoming_requests: Vec<JoinRequestView>,
    pub outgoing_requests: Vec<OutgoingRequestView>,
    pub participants: Vec<ParticipantView>,
    pub recent_reactions: Vec<ReactionView>,
}

/// A reaction sent to a broadcast.
pub struct ReactionRequest {
    pub emoji: String,
}

/// A request to start a broadcast.
pub struct StartBroadcastRequest {
    pub title: String,
    pub is_public: bool,
}

/// A search of the public broadcasts.
pub struct PublicQuery {
    pub q: String,
}

/// The role a host grants with a join request.
pub struct AcceptRequest {
    pub role: String,
}

/// Whether a member is speaking now.
pub struct SpeakingRequest {
    pub speaking: bool,
}

/// A broadcast is public unless the request says otherwise.
pub fn default_public() -> (r: bool)
    ensures
        r,
{
    true
}

/// How many broadcasts the studio lists, live and public.
pub const STUDIO_LIVE_LIMIT: i64 = 50;
pub const STUDIO_PUBLIC_LIMIT: i64 = 10;
/// How many public broadcasts a search lists.
pub const SEARCH_LIMIT: i64 = 40;
/// The longest title, in bytes.
pub const TITLE_MAX: usize = 120;
/// The most tags a title yields.
pub const MAX_TAGS: usize = 8;
/// The longest search tag, in characters.
pub const SEARCH_TAG_MAX: usize = 32;
/// How many reactions one member may send within two seconds.
pub const REACTION_BURST: i64 = 6;

// ---------------------------------------------------------------- tags

/// Whether `c` continues a tag: a letter or digit (in Unicode's sense) or `_`.
pub open spec fn is_tag_char(c: char) -> bool {
    alphanumeric(c) || c == '_'
}

/// Stops at a character that cannot continue a tag.
pub open spec fn tag_end() -> spec_fn(char) -> bool {
    |c: char| !is_tag_char(c)
}

/// The characters of a tag written right at the start of `s`.
pub open spec fn tag_run(s: Seq<char>) -> Seq<char> {
    take_until(s, tag_end())
}

/// `s` in lowercase, character by character.
pub open spec fn lower_all(s: Seq<char>) -> Seq<char>
    decreases s.len(),
{
    if s.len() == 0 {
        Seq::empty()
    } else {
        lower_all(s.drop_last()) + char_lowercase(s.last())
    }
}

/// The tags written in `s`, in order: each `#` that is not part of a tag
/// starts one, made of the lowercased tag characters right after it (empty
/// where none follow).
pub open spec fn hash_tags(s: Seq<char>) -> Seq<Seq<char>>
    decreases s.len(),
{
    if s.len() == 0 {
        Seq::empty()
    } else if s[0] == '#' {
        let run = tag_run(s.drop_first());
        proof {
            lemma_take_until_len(s.drop_first(), tag_end());
        }
        seq![lower_all(run)] + hash_tags(s.drop_first().skip(run.len() as int))
    } else {
        hash_tags(s.drop_first())
    }
}

/// `acc` with the tag `t` added, unless `acc` holds eight tags, `t` is
/// empty or `acc` holds it already.
pub open spec fn add_tag(acc: Seq<Seq<char>>, t: Seq<char>) -> Seq<Seq<char>> {
    if acc.len() < MAX_TAGS && t.len() > 0 && !acc.contains(t) {
        acc.push(t)
    } else {
        acc
    }
}

/// `acc` with each of `ts` added in turn.
pub open spec fn collect_tags(acc: Seq<Seq<char>>, ts: Seq<Seq<char>>) -> Seq<Seq<char>>
    decreases ts.len(),
{
    if ts.len() == 0 {
        acc
    } else {
        collect_tags(add_tag(acc, ts[0]), ts.drop_first())
    }
}

/// The tags of a broadcast title: the first eight distinct non-empty tags
/// written in it.
pub open spec fn title_tags(title: Seq<char>) -> Seq<Seq<char>> {
    collect_tags(Seq::empty(), hash_tags(title))
}

/// The texts of `v`.
pub open spec fn texts(v: Seq<String>) -> Seq<Seq<char>> {
    v.map_values(|s: String| s@)
}

/// Whether a list of tags is a valid tag list: at most eight, none empty,
/// none twice.
pub open spec fn tag_list_ok(ts: Seq<Seq<char>>) -> bool {
    &&& ts.len() <= MAX_TAGS
    &&& forall|i: int| 0 <= i < ts.len() ==> (#[trigger] ts[i]).len() > 0
    &&& ts.no_duplicates()
}

pub proof fn lemma_collect_full(acc: Seq<Seq<char>>, ts: Seq<Seq<char>>)
    requires
        acc.len() >= MAX_TAGS,
    ensures
        collect_tags(acc, ts) == acc,
    decreases ts.len(),
{
    if ts.len() > 0 {
        lemma_collect_full(acc, ts.drop_first());
    }
}

pub proof fn lemma_collect_keeps_ok(acc: Seq<Seq<char>>, ts: Seq<Seq<char>>)
    requires
        tag_list_ok(acc),
    ensures
        tag_list_ok(collect_tags(acc, ts)),
    decreases ts.len(),
{
    if ts.len() > 0 {
        let next = add_tag(acc, ts[0]);
        if acc.len() < MAX_TAGS && ts[0].len() > 0 && !acc.contains(ts[0]) {
            assert forall|i: int, j: int|
                0 <= i < next.len() && 0 <= j < next.len() && i != j implies next[i]
                != next[j] by {
                if i == acc.len() as int {
                    assert(acc[j] == next[j]);
                } else if j == acc.len() as int {
                    assert(acc[i] == next[i]);
                }
            }
        }
        lemma_collect_keeps_ok(next, ts.drop_first());
    }
}

pub proof fn lemma_lower_all_push(s: Seq<char>, c: char)
    ensures
        lower_all(s.push(c)) == lower_all(s) + char_lowercase(c),
{
    assert(s.push(c).drop_last() =~= s);
}

/// Whether the list `tags` holds `t`.
fn holds_tag(tags: &Vec<String>, t: &String) -> (r: bool)
    ensures
        r == texts(tags@).contains(t@),
{
    let mut i: usize = 0;
    while i < tags.len()
        invariant
            i <= tags.len(),
            forall|k: int| 0 <= k < i ==> #[trigger] tags@[k]@ != t@,
        decreases tags.len() - i,
    {
        if tags[i] == *t {
            assert(texts(tags@)[i as int] == t@);
            return true;
        }
        i = i + 1;
    }
    assert forall|k: int| 0 <= k < texts(tags@).len() implies texts(tags@)[k] != t@ by {
        assert(texts(tags@)[k] == tags@[k]@);
    }
    false
}

/// The tags written in a broadcast title: each `#` followed by letters,
/// digits or `_` names a tag, lowercased; the first eight distinct ones are
/// kept, in the order written.
#[verifier::loop_isolation(false)]
pub fn parse_tags(title: &str) -> (r: Vec<String>)
    ensures
        texts(r@) == title_tags(title@),
{
    let t = chars_of(title);
    let n = t.len();
    let mut tags: Vec<String> = Vec::new();
    let mut p: usize = 0;
    assert(t@.skip(0) =~= t@);
    assert(texts(tags@) =~= Seq::<Seq<char>>::empty());
    while p < n && tags.len() < MAX_TAGS
        invariant
            p <= n == t@.len(),
            collect_tags(texts(tags@), hash_tags(t@.skip(p as int))) == title_tags(title@),
            texts(tags@).len() == tags@.len(),
        decreases n - p,
    {
        if t[p] != '#' {
            assert(t@.skip(p as int).drop_first() =~= t@.skip(p + 1));
            p = p + 1;
            continue;
        }
        let mut q: usize = p + 1;
        let mut tag: Vec<char> = Vec::new();
        while q < n && (char_is_alphanumeric(t[q]) || t[q] == '_')
            invariant
                p < q <= n == t@.len(),
                tag@ == lower_all(t@.subrange(p + 1, q as int)),
                forall|k: int| p + 1 <= k < q ==> is_tag_char(#[trigger] t@[k]),
            decreases n - q,
        {
            let low = char_to_lowercase(t[q]);
            proof {
                lemma_lower_all_push(t@.subrange(p + 1, q as int), t@[q as int]);
                assert(t@.subrange(p + 1, q as int).push(t@[q as int]) =~= t@.subrange(
                    p + 1,
                    q + 1,
                ));
            }
            tag = concat_chars(&tag, &low);
            q = q + 1;
        }
        let ghost s = t@.skip(p as int);
        proof {
            let rest = t@.skip(p + 1);
            assert(s[0] == '#');
            assert(rest =~= t@.skip(p as int).drop_first());
            assert forall|k: int| 0 <= k < q - p - 1 implies !(tag_end())(#[trigger] rest[k]) by {
                assert(rest[k] == t@[p + 1 + k]);
            }
            if q < n {
                assert(rest[q - p - 1] == t@[q as int]);
            }
            lemma_take_until_prefix(rest, tag_end(), q - p - 1);
            assert(rest.subrange(0, q - p - 1) =~= t@.subrange(p + 1, q as int));
            assert(rest.skip(q - p - 1) =~= t@.skip(q as int));
            assert(hash_tags(s) == seq![tag@] + hash_tags(t@.skip(q as int)));
            assert((seq![tag@] + hash_tags(t@.skip(q as int))).drop_first() =~= hash_tags(
                t@.skip(q as int),
            ));
        }
        let ts = string_from_chars(tag.as_slice());
        let ghost before = texts(tags@);
        if tag.len() > 0 && tags.len() < MAX_TAGS && !holds_tag(&tags, &ts) {
            tags.push(ts);
            assert(texts(tags@) =~= before.push(tag@));
        }
        assert(texts(tags@) == add_tag(before, tag@));
        p = q;
    }
    proof {
        if p == n {
            assert(t@.skip(p as int) =~= Seq::<char>::empty());
        } else {
            lemma_collect_full(texts(tags@), hash_tags(t@.skip(p as int)));
        }
    }
    tags
}

/// The tags of a title are at most eight, none empty and none repeated.
pub proof fn law_title_tags_are_distinct(title: Seq<char>)
    ensures
        tag_list_ok(title_tags(title)),
{
    lemma_collect_keeps_ok(Seq::empty(), hash_tags(title));
}


/// Whether `c` comes from lowercasing a letter, a digit or `_`.
pub open spec fn lowered_word_char(c: char) -> bool {
    exists|d: char| (alphanumeric(d) || d == '_') && #[trigger] char_lowercase(d).contains(c)
}

/// Whether every character of `t` comes from lowercasing a letter, a digit
/// or `_`.
pub open spec fn lowered_word(t: Seq<char>) -> bool {
    forall|j: int| 0 <= j < t.len() ==> lowered_word_char(#[trigger] t[j])
}

pub proof fn lemma_take_until_stops_nowhere(s: Seq<char>, stop: spec_fn(char) -> bool)
    ensures
        forall|k: int|
            0 <= k < take_until(s, stop).len() ==> !stop(#[trigger] take_until(s, stop)[k]),
    decreases s.len(),
{
    if s.len() > 0 && !stop(s[0]) {
        lemma_take_until_stops_nowhere(s.drop_first(), stop);
        let r = take_until(s.drop_first(), stop);
        assert forall|k: int| 0 <= k < take_until(s, stop).len() implies !stop(
            #[trigger] take_until(s, stop)[k],
        ) by {
            if k > 0 {
                assert(take_until(s, stop)[k] == r[k - 1]);
            }
        }
    }
}

pub proof fn lemma_lower_all_word(s: Seq<char>)
    requires
        forall|k: int| 0 <= k < s.len() ==> is_tag_char(#[trigger] s[k]),
    ensures
        lowered_word(lower_all(s)),
    decreases s.len(),
{
    if s.len() > 0 {
        assert forall|k: int| 0 <= k < s.drop_last().len() implies is_tag_char(
            #[trigger] s.drop_last()[k],
        ) by {
            assert(s.drop_last()[k] == s[k]);
        }
        lemma_lower_all_word(s.drop_last());
        let a = lower_all(s.drop_last());
        let b = char_lowercase(s.last());
        let l = lower_all(s);
        assert(l == a + b);
        assert(is_tag_char(s[s.len() - 1]));
        assert forall|j: int| 0 <= j < l.len() implies lowered_word_char(#[trigger] l[j]) by {
            if j < a.len() {
                assert(l[j] == a[j]);
            } else {
                assert(l[j] == b[j - a.len()]);
                assert(b.contains(l[j]));
            }
        }
    }
}

pub proof fn lemma_hash_tags_words(s: Seq<char>)
    ensures
        forall|i: int| 0 <= i < hash_tags(s).len() ==> lowered_word(#[trigger] hash_tags(s)[i]),
    decreases s.len(),
{
    if s.len() > 0 {
        if s[0] == '#' {
            let run = tag_run(s.drop_first());
            lemma_take_until_len(s.drop_first(), tag_end());
            lemma_take_until_stops_nowhere(s.drop_first(), tag_end());
            assert forall|k: int| 0 <= k < run.len() implies is_tag_char(#[trigger] run[k]) by {
                assert(!(tag_end())(run[k]));
            }
            lemma_lower_all_word(run);
            let rest = s.drop_first().skip(run.len() as int);
            lemma_hash_tags_words(rest);
            let h = hash_tags(s);
            assert(h == seq![lower_all(run)] + hash_tags(rest));
            assert forall|i: int| 0 <= i < h.len() implies lowered_word(#[trigger] h[i]) by {
                if i > 0 {
                    assert(h[i] == hash_tags(rest)[i - 1]);
                }
            }
        } else {
            lemma_hash_tags_words(s.drop_first());
            assert(hash_tags(s) == hash_tags(s.drop_first()));
        }
    }
}

pub proof fn lemma_collect_words(acc: Seq<Seq<char>>, ts: Seq<Seq<char>>)
    requires
        forall|i: int| 0 <= i < acc.len() ==> lowered_word(#[trigger] acc[i]),
        forall|i: int| 0 <= i < ts.len() ==> lowered_word(#[trigger] ts[i]),
    ensures
        forall|i: int|
            0 <= i < collect_tags(acc, ts).len() ==> lowered_word(#[trigger] collect_tags(acc, ts)[i]),
    decreases ts.len(),
{
    if ts.len() > 0 {
        let next = add_tag(acc, ts[0]);
        assert(lowered_word(ts[0]));
        assert forall|i: int| 0 <= i < next.len() implies lowered_word(#[trigger] next[i]) by {
            if i < acc.len() {
                assert(next[i] == acc[i]);
            }
        }
        assert forall|i: int| 0 <= i < ts.drop_first().len() implies lowered_word(
            #[trigger] ts.drop_first()[i],
        ) by {
            assert(ts.drop_first()[i] == ts[i + 1]);
        }
        lemma_collect_words(next, ts.drop_first());
        assert(collect_tags(acc, ts) == collect_tags(next, ts.drop_first()));
        let r = collect_tags(acc, ts);
        assert forall|i: int| 0 <= i < r.len() implies lowered_word(#[trigger] r[i]) by {
            assert(lowered_word(collect_tags(next, ts.drop_first())[i]));
        }
    }
}

/// Every character of every tag of a title comes from lowercasing a letter,
/// a digit (in Unicode's sense) or `_`: punctuation and spaces end a tag and
/// never belong to one.
pub proof fn law_tags_hold_only_word_characters(title: Seq<char>)
    ensures
        forall|i: int, j: int|
            0 <= i < title_tags(title).len() && 0 <= j < title_tags(title)[i].len()
                ==> lowered_word_char(#[trigger] title_tags(title)[i][j]),
{
    lemma_hash_tags_words(title);
    lemma_collect_words(Seq::empty(), hash_tags(title));
    assert forall|i: int, j: int|
        0 <= i < title_tags(title).len() && 0 <= j < title_tags(title)[i].len() implies lowered_word_char(
        #[trigger] title_tags(title)[i][j],
    ) by {
        assert(lowered_word(title_tags(title)[i]));
    }
}


/// A tag ends at the first character that is neither a letter, a digit nor
/// `_`: after `#`, the letters, digits and `_` of `w` followed by any other
/// character `c` make the one tag `w`, lowercased.
pub proof fn law_tag_ends_at_first_other_character(w: Seq<char>, c: char)
    requires
        forall|k: int| 0 <= k < w.len() ==> alphanumeric(#[trigger] w[k]) || w[k] == '_',
        !alphanumeric(c),
        c != '_',
        lower_all(w).len() > 0,
    ensures
        title_tags(seq!['#'] + w + seq![c]) == seq![lower_all(w)],
{
    let s = seq!['#'] + w + seq![c];
    let x = w + seq![c];
    assert(s.drop_first() =~= x);
    assert forall|k: int| 0 <= k < w.len() implies !(tag_end())(#[trigger] x[k]) by {
        assert(x[k] == w[k]);
    }
    assert(x[w.len() as int] == c);
    lemma_take_until_prefix(x, tag_end(), w.len() as int);
    assert(x.subrange(0, w.len() as int) =~= w);
    let run = tag_run(x);
    assert(run == w);
    assert(x.skip(w.len() as int) =~= seq![c]);
    let lw = lower_all(w);
    let empty = Seq::<char>::empty();
    assert(seq![c].drop_first() =~= empty);
    assert(hash_tags(empty) == Seq::<Seq<char>>::empty());
    let rest = hash_tags(seq![c]);
    if c == '#' {
        assert(take_until(empty, tag_end()) == empty);
        assert(lower_all(empty) == empty);
        assert(empty.skip(0) =~= empty);
        assert(rest == seq![empty] + Seq::<Seq<char>>::empty());
        assert(rest =~= seq![empty]);
    } else {
        assert(rest == Seq::<Seq<char>>::empty());
    }
    let hs = hash_tags(s);
    assert(hs == seq![lw] + rest);
    let acc1 = add_tag(Seq::empty(), lw);
    assert(acc1 =~= seq![lw]);
    assert(hs[0] == lw);
    assert(hs.drop_first() =~= rest);
    assert(collect_tags(Seq::empty(), hs) == collect_tags(acc1, rest));
    if c == '#' {
        assert(rest[0] == empty);
        assert(add_tag(acc1, empty) == acc1);
        assert(rest.drop_first() =~= Seq::<Seq<char>>::empty());
        assert(collect_tags(acc1, rest) == collect_tags(acc1, Seq::<Seq<char>>::empty()));
    }
}


// ---------------------------------------------------------------- search

/// The tag a search looks for: the query trimmed, without leading `#`, cut
/// to 32 characters and lowercased.
pub open spec fn search_tag(raw: Seq<char>) -> Seq<char> {
    let t = trim_start_char(trim(raw), '#');
    lower_all(
        if t.len() <= SEARCH_TAG_MAX {
            t
        } else {
            t.take(SEARCH_TAG_MAX as int)
        },
    )
}

/// The tag a search of the public broadcasts looks for.
pub fn normalize_search_tag(raw: &str) -> (r: String)
    ensures
        r@ == search_tag(raw@),
{
    let t0 = trim_str(raw);
    let t = trim_start_matching(&t0, '#');
    let k: usize = if t.len() <= SEARCH_TAG_MAX {
        t.len()
    } else {
        SEARCH_TAG_MAX
    };
    let mut out: Vec<char> = Vec::new();
    let mut i: usize = 0;
    while i < k
        invariant
            i <= k <= t.len(),
            out@ == lower_all(t@.subrange(0, i as int)),
        decreases k - i,
    {
        let low = char_to_lowercase(t[i]);
        proof {
            lemma_lower_all_push(t@.subrange(0, i as int), t@[i as int]);
            assert(t@.subrange(0, i as int).push(t@[i as int]) =~= t@.subrange(0, i + 1));
        }
        out = concat_chars(&out, &low);
        i = i + 1;
    }
    assert(t@.subrange(0, k as int) =~= (if t@.len() <= SEARCH_TAG_MAX {
        t@
    } else {
        t@.take(SEARCH_TAG_MAX as int)
    }));
    string_from_chars(out.as_slice())
}

/// How the public broadcasts are searched: for the tag, by `LIKE` pattern,
/// or (with no tag) by the user's language.
pub struct PublicSearch {
    pub tag: String,
    pub searching: bool,
    pub pattern: String,
}

/// The search of the public broadcasts for the query `raw`.
pub fn public_search(raw: &str) -> (r: PublicSearch)
    ensures
        r.tag@ == search_tag(raw@),
        r.searching == (search_tag(raw@).len() > 0),
        r.pattern@ == seq!['%'] + search_tag(raw@) + seq!['%'],
{
    let tag = normalize_search_tag(raw);
    let tc = chars_of(tag.as_str());
    let searching = tc.len() > 0;
    let pct: Vec<char> = vec!['%'];
    let a = concat_chars(&pct, &tc);
    let b = concat_chars(&a, &pct);
    PublicSearch { tag, searching, pattern: string_from_chars(b.as_slice()) }
}

/// Whether the public list falls back to broadcasts in every language: when
/// nothing was searched for and none is live in the user's language.
pub fn use_worldwide_fallback(searching: bool, found: usize) -> (r: bool)
    ensures
        r == (!searching && found == 0),
{
    !searching && found == 0
}

/// The broadcasts of `rows` that are public, in order.
pub open spec fn public_rows(rows: Seq<BroadcastView>) -> Seq<BroadcastView>
    decreases rows.len(),
{
    if rows.len() == 0 {
        Seq::empty()
    } else if rows.last().is_public {
        public_rows(rows.drop_last()).push(rows.last())
    } else {
        public_rows(rows.drop_last())
    }
}

/// The public broadcasts among `rows`, in order: what the public list may
/// show.
pub fn public_only(rows: Vec<BroadcastView>) -> (r: Vec<BroadcastView>)
    ensures
        r@ == public_rows(rows@),
{
    let ghost all = rows@;
    let n = rows.len();
    let mut rest = rows;
    let mut out: Vec<BroadcastView> = Vec::new();
    let mut k: usize = 0;
    while rest.len() > 0
        invariant
            k <= all.len() == n,
            rest@ == all.skip(k as int),
            out@ == public_rows(all.take(k as int)),
        decreases rest@.len(),
    {
        let b = rest.remove(0);
        proof {
            assert(all.take(k + 1).drop_last() =~= all.take(k as int));
            assert(all.take(k + 1).last() == all[k as int]);
        }
        if b.is_public {
            out.push(b);
        }
        k = k + 1;
        assert(rest@ =~= all.skip(k as int));
    }
    assert(all.take(k as int) =~= all);
    out
}

/// No private broadcast is ever shown on the public list.
pub proof fn law_public_list_holds_no_private_broadcast(rows: Seq<BroadcastView>)
    ensures
        forall|i: int| 0 <= i < public_rows(rows).len() ==> (#[trigger] public_rows(rows)[i]).is_public,
        public_rows(rows).len() <= rows.len(),
    decreases rows.len(),
{
    if rows.len() > 0 {
        law_public_list_holds_no_private_broadcast(rows.drop_last());
    }
}

/// Separators of a language tag list (`Accept-Language` style).
pub open spec fn locale_stop() -> spec_fn(char) -> bool {
    |c: char| c == ',' || c == ';' || c == '-' || c == '_'
}

/// The language used when a stored locale gives none.
pub open spec fn default_locale() -> Seq<char> {
    seq!['e', 'n']
}

/// The primary language of a stored locale: its first subtag, trimmed and
/// lowercased; `en` where that is empty or longer than 8 bytes.
pub open spec fn primary_language(raw: Seq<char>) -> Seq<char> {
    let p = lowercase_text(trim(take_until(raw, locale_stop())));
    if p.len() == 0 || byte_len(p) > 8 {
        default_locale()
    } else {
        p
    }
}

/// The primary language of a stored locale.
pub fn primary_locale(raw: String) -> (r: String)
    ensures
        r@ == primary_language(raw@),
{
    let cs = chars_of(raw.as_str());
    let mut i: usize = 0;
    while i < cs.len() && !(cs[i] == ',' || cs[i] == ';' || cs[i] == '-' || cs[i] == '_')
        invariant
            i <= cs.len(),
            forall|k: int| 0 <= k < i ==> !(locale_stop())(#[trigger] cs@[k]),
        decreases cs.len() - i,
    {
        i = i + 1;
    }
    proof {
        lemma_take_until_prefix(cs@, locale_stop(), i as int);
    }
    let first = copy_range(&cs, 0, i);
    let t = trim_chars(&first);
    let p = lowercase_chars(&t);
    if p.len() == 0 || text_byte_len(&p) > 8 {
        let en: Vec<char> = vec!['e', 'n'];
        assert(en@ =~= default_locale());
        string_from_chars(en.as_slice())
    } else {
        string_from_chars(p.as_slice())
    }
}

/// The locale a sign-up stores: the primary language of the locale the form
/// gives, else of the browser's `Accept-Language`, else `en`.
pub open spec fn signup_locale(given: Option<Seq<char>>, accept_language: Option<Seq<char>>) -> Seq<
    char,
> {
    match given {
        Some(g) => if trim(g).len() > 0 {
            primary_language(g)
        } else {
            match accept_language {
                Some(a) => primary_language(a),
                None => default_locale(),
            }
        },
        None => match accept_language {
            Some(a) => primary_language(a),
            None => default_locale(),
        },
    }
}

/// The locale a sign-up stores.
pub fn normalize_locale(given: Option<&str>, accept_language: Option<&str>) -> (r: String)
    ensures
        r@ == signup_locale(
            match given {
                Some(g) => Some(g@),
                None => None,
            },
            match accept_language {
                Some(a) => Some(a@),
                None => None,
            },
        ),
{
    match given {
        Some(g) => {
            let t = trim_str(g);
            if t.len() > 0 {
                return primary_locale(g.to_owned());
            }
        },
        None => {},
    }
    match accept_language {
        Some(a) => primary_locale(a.to_owned()),
        None => {
            let en: Vec<char> = vec!['e', 'n'];
            assert(en@ =~= default_locale());
            string_from_chars(en.as_slice())
        },
    }
}

/// A primary language is never empty and at most 8 bytes.
pub proof fn law_primary_language_is_short(raw: Seq<char>)
    ensures
        primary_language(raw).len() > 0,
        byte_len(primary_language(raw)) <= 8,
{
    lemma_byte_len_bounds(default_locale());
}

// ---------------------------------------------------------------- reactions

/// The text of the red heart with the emoji presentation selector.
pub open spec fn red_heart() -> Seq<char> {
    seq!['\u{2764}', '\u{fe0f}']
}

/// The reactions a member may send.
pub open spec fn allowed_reactions() -> Seq<Seq<char>> {
    seq![
        red_heart(),
        seq!['\u{2764}'],
        seq!['\u{1f44d}'],
        seq!['\u{1f44e}'],
        seq!['\u{1f602}'],
        seq!['\u{1f525}'],
        seq!['\u{1f44f}'],
        seq!['\u{1f62e}'],
        seq!['\u{1f622}'],
        seq!['\u{1f389}'],
    ]
}

/// A reaction as stored: trimmed, with a bare heart (text or suit style)
/// written as the red heart emoji.
pub open spec fn reaction_text(raw: Seq<char>) -> Seq<char> {
    let t = trim(raw);
    if t == seq!['\u{2764}'] || t == seq!['\u{2665}'] {
        red_heart()
    } else {
        t
    }
}

/// The reaction as stored.
pub fn normalize_reaction(emoji: &str) -> (r: String)
    ensures
        r@ == reaction_text(emoji@),
{
    let t = trim_str(emoji);
    let heart: Vec<char> = vec!['\u{2764}'];
    let suit: Vec<char> = vec!['\u{2665}'];
    assert(heart@ =~= seq!['\u{2764}']);
    assert(suit@ =~= seq!['\u{2665}']);
    if same_chars(&t, &heart) || same_chars(&t, &suit) {
        let red: Vec<char> = vec!['\u{2764}', '\u{fe0f}'];
        assert(red@ =~= red_heart());
        string_from_chars(red.as_slice())
    } else {
        string_from_chars(t.as_slice())
    }
}

fn reaction_list() -> (r: Vec<Vec<char>>)
    ensures
        r@.len() == allowed_reactions().len(),
        forall|i: int| 0 <= i < r@.len() ==> (#[trigger] r@[i])@ == allowed_reactions()[i],
{
    let mut r: Vec<Vec<char>> = Vec::new();
    r.push(vec!['\u{2764}', '\u{fe0f}']);
    r.push(vec!['\u{2764}']);
    r.push(vec!['\u{1f44d}']);
    r.push(vec!['\u{1f44e}']);
    r.push(vec!['\u{1f602}']);
    r.push(vec!['\u{1f525}']);
    r.push(vec!['\u{1f44f}']);
    r.push(vec!['\u{1f62e}']);
    r.push(vec!['\u{1f622}']);
    r.push(vec!['\u{1f389}']);
    assert(r@[0]@ =~= allowed_reactions()[0]);
    r
}

/// What a sent reaction comes to before the sender is checked: the stored
/// reaction, or a refusal of one that is not allowed.
pub open spec fn reaction_rule(raw: Seq<char>) -> Result<Seq<char>, (u16, Seq<char>)> {
    let e = reaction_text(raw);
    if allowed_reactions().contains(e) {
        Ok(e)
    } else {
        Err((BAD_REQUEST, "unsupported reaction"@))
    }
}

/// Checks a sent reaction; gives it as stored.
pub fn check_reaction(raw: &str) -> (r: Result<String, ApiError>)
    ensures
        text_outcome(r) == reaction_rule(raw@),
{
    let e = normalize_reaction(raw);
    let ec = chars_of(e.as_str());
    let list = reaction_list();
    let mut i: usize = 0;
    while i < list.len()
        invariant
            i <= list@.len() == allowed_reactions().len(),
            forall|k: int| 0 <= k < list@.len() ==> (#[trigger] list@[k])@ == allowed_reactions()[k],
            forall|k: int| 0 <= k < i ==> #[trigger] allowed_reactions()[k] != ec@,
            ec@ == reaction_text(raw@),
            e@ == ec@,
        decreases list.len() - i,
    {
        if same_chars(&list[i], &ec) {
            assert(allowed_reactions()[i as int] == ec@);
            assert(allowed_reactions().contains(ec@));
            return Ok(e);
        }
        i = i + 1;
    }
    Err(error(BAD_REQUEST, "unsupported reaction"))
}

/// A heart sent in any of its forms is accepted as the red heart emoji.
pub proof fn law_hearts_are_red_hearts(raw: Seq<char>)
    requires
        trim(raw) == seq!['\u{2764}'] || trim(raw) == seq!['\u{2665}'],
    ensures
        reaction_rule(raw) == Ok::<Seq<char>, (u16, Seq<char>)>(red_heart()),
{
    assert(allowed_reactions()[0] == red_heart());
}

/// The ten documented reactions, as sent: red heart, bare heart, thumbs up,
/// thumbs down, face with tears of joy, fire, clapping hands, face with open
/// mouth, crying face, party popper.
pub open spec fn documented_reactions() -> Seq<Seq<char>> {
    seq![
        seq!['\u{2764}', '\u{fe0f}'],
        seq!['\u{2764}'],
        seq!['\u{1f44d}'],
        seq!['\u{1f44e}'],
        seq!['\u{1f602}'],
        seq!['\u{1f525}'],
        seq!['\u{1f44f}'],
        seq!['\u{1f62e}'],
        seq!['\u{1f622}'],
        seq!['\u{1f389}'],
    ]
}

/// Each of the ten documented reactions is accepted, with white space around
/// it or without: each is stored unchanged, but the bare heart, which is
/// stored as the red heart emoji.
pub proof fn law_documented_reactions_are_accepted(raw: Seq<char>, k: int)
    requires
        0 <= k < 10,
        trim(raw) == documented_reactions()[k],
    ensures
        k == 1 ==> reaction_rule(raw) == Ok::<Seq<char>, (u16, Seq<char>)>(
            seq!['\u{2764}', '\u{fe0f}'],
        ),
        k != 1 ==> reaction_rule(raw) == Ok::<Seq<char>, (u16, Seq<char>)>(
            documented_reactions()[k],
        ),
{
    let d = documented_reactions();
    let a = allowed_reactions();
    assert(a[0] == red_heart());
    if k == 1 {
        assert(a[0] =~= seq!['\u{2764}', '\u{fe0f}']);
    } else {
        assert(d[k] =~= a[k]);
        assert(d[k].len() == 2 || (d[k].len() == 1 && d[k][0] != '\u{2764}' && d[k][0]
            != '\u{2665}'));
        assert(seq!['\u{2764}'][0] == '\u{2764}');
        assert(seq!['\u{2665}'][0] == '\u{2665}');
        assert(d[k] != seq!['\u{2764}']);
        assert(d[k] != seq!['\u{2665}']);
        assert(reaction_text(raw) == d[k]);
        assert(a.contains(d[k]));
    }
}

/// Whether a member may send a reaction now: only members of the live
/// broadcast, and at most six within two seconds.
pub open spec fn reaction_admission_rule(is_member: bool, recent: i64) -> Result<(), (u16, Seq<char>)> {
    if !is_member {
        Err((FORBIDDEN, "not in this broadcast"@))
    } else if recent >= REACTION_BURST {
        Err((TOO_MANY_REQUESTS, "slow down a little"@))
    } else {
        Ok(())
    }
}

/// Admits or refuses a reaction.
pub fn reaction_admission(is_member: bool, recent: i64) -> (r: Result<(), ApiError>)
    ensures
        outcome(r) == reaction_admission_rule(is_member, recent),
{
    if !is_member {
        Err(error(FORBIDDEN, "not in this broadcast"))
    } else if recent >= REACTION_BURST {
        Err(error(TOO_MANY_REQUESTS, "slow down a little"))
    } else {
        Ok(())
    }
}

/// A stored reaction, as shown.
pub fn reaction_view(id: i32, emoji: String, from: UserView, created_at: i128) -> (r: ReactionView)
    requires
        in_calendar_range(created_at),
    ensures
        r.id == id,
        r.emoji == emoji,
        r.from == from,
        r.created_at@ == rfc3339_text(secs_of(created_at), subsec_of(created_at)),
{
    ReactionView { id, emoji, from, created_at: rfc3339(created_at) }
}

// ---------------------------------------------------------------- starting and leaving

/// Refuses a user who already takes part in a live broadcast.
pub fn check_not_in_live(already: bool) -> (r: Result<(), ApiError>)
    ensures
        already ==> fails_with(r, CONFLICT, "already in a live broadcast"@),
        !already ==> r is Ok,
{
    if already {
        Err(error(CONFLICT, "already in a live broadcast"))
    } else {
        Ok(())
    }
}

/// What a new broadcast is started with.
pub struct BroadcastPlan {
    pub room_id: String,
    pub title: String,
    pub tags: Vec<String>,
}

/// The room of a broadcast: the host's name and the hexadecimal identifier.
pub open spec fn room_name(host: Seq<char>, v: u128) -> Seq<char> {
    host + seq!['-'] + hex32(v)
}

/// The title of a new broadcast: trimmed, at most 120 bytes.
pub open spec fn title_rule(raw: Seq<char>) -> Result<Seq<char>, (u16, Seq<char>)> {
    let t = trim(raw);
    if byte_len(t) > TITLE_MAX {
        Err((BAD_REQUEST, "title must be 120 characters or less"@))
    } else {
        Ok(t)
    }
}

/// Plans a broadcast by `host` with the title `raw_title`, in the room named
/// with the identifier `v`.
pub fn plan_broadcast(host: &UserView, raw_title: &str, v: u128) -> (r: Result<BroadcastPlan, ApiError>)
    ensures
        match r {
            Ok(p) => {
                &&& title_rule(raw_title@) == Ok::<Seq<char>, (u16, Seq<char>)>(p.title@)
                &&& texts(p.tags@) == title_tags(p.title@)
                &&& p.room_id@ == room_name(host.username@, v)
            },
            Err(e) => title_rule(raw_title@) == Err::<Seq<char>, (u16, Seq<char>)>(e@),
        },
{
    let t = trim_str(raw_title);
    if text_byte_len(&t) > TITLE_MAX {
        return Err(error(BAD_REQUEST, "title must be 120 characters or less"));
    }
    let title = string_from_chars(t.as_slice());
    let tags = parse_tags(title.as_str());
    let h = chars_of(host.username.as_str());
    let dash: Vec<char> = vec!['-'];
    let hex = token_hex(v);
    let hc = chars_of(hex.as_str());
    let a = concat_chars(&h, &dash);
    let b = concat_chars(&a, &hc);
    Ok(BroadcastPlan { room_id: string_from_chars(b.as_slice()), title, tags })
}

/// The membership of the host in the broadcast just started.
pub fn host_membership(broadcast_id: i32, room_id: String, host: UserView, title: String) -> (r:
    MembershipView)
    ensures
        r.broadcast_id == broadcast_id,
        r.room_id == room_id,
        r.role@ == "host"@,
        r.host == host,
        r.title == title,
{
    MembershipView { broadcast_id, room_id, role: "host".to_owned(), host, title }
}

/// What leaving the live broadcast does.
pub enum LeaveAction {
    /// The user hosts the broadcast `id`: it ends.
    EndBroadcast { id: i32 },
    /// The user only takes part: the membership goes.
    LeaveMembership,
}

/// What leaving does, given the live broadcast the user hosts, if any.
pub fn leave_action(hosted: Option<i32>) -> (r: LeaveAction)
    ensures
        match hosted {
            Some(id) => r == (LeaveAction::EndBroadcast { id }),
            None => r == LeaveAction::LeaveMembership,
        },
{
    match hosted {
        Some(id) => LeaveAction::EndBroadcast { id },
        None => LeaveAction::LeaveMembership,
    }
}

/// The answer to ending a broadcast, given how many live broadcasts ended.
pub fn ended_answer(updated: u64) -> (r: Result<(), ApiError>)
    ensures
        updated == 0 ==> fails_with(r, NOT_FOUND, "no live broadcast to end"@),
        updated != 0 ==> r is Ok,
{
    if updated == 0 {
        Err(error(NOT_FOUND, "no live broadcast to end"))
    } else {
        Ok(())
    }
}

// ---------------------------------------------------------------- joining

/// Whether `user_id` may ask to join the broadcast, given its host if it is
/// live.
pub open spec fn joinable_rule(user_id: i32, live_host: Option<i32>) -> Result<(), (u16, Seq<char>)> {
    match live_host {
        None => Err((NOT_FOUND, "broadcast is not live"@)),
        Some(h) => if h == user_id {
            Err((BAD_REQUEST, "host is already in the broadcast"@))
        } else {
            Ok(())
        },
    }
}

/// Checks a join request against the broadcast asked for.
pub fn check_joinable(user_id: i32, live_host: Option<i32>) -> (r: Result<(), ApiError>)
    ensures
        outcome(r) == joinable_rule(user_id, live_host),
{
    match live_host {
        None => Err(error(NOT_FOUND, "broadcast is not live")),
        Some(h) => if h == user_id {
            Err(error(BAD_REQUEST, "host is already in the broadcast"))
        } else {
            Ok(())
        },
    }
}

/// The roles a host can grant.
pub open spec fn grantable(role: Seq<char>) -> bool {
    role == "listener"@ || role == "speaker"@
}

/// The role granted by an acceptance: trimmed and lowercased, `listener` or
/// `speaker`.
pub open spec fn role_rule(raw: Seq<char>) -> Result<Seq<char>, (u16, Seq<char>)> {
    let r = lowercase_text(trim(raw));
    if grantable(r) {
        Ok(r)
    } else {
        Err((BAD_REQUEST, "role must be listener or speaker"@))
    }
}

/// Reads the role granted by an acceptance.
pub fn normalize_role(raw: &str) -> (r: Result<String, ApiError>)
    ensures
        text_outcome(r) == role_rule(raw@),
{
    let t = trim_str(raw);
    let l = lowercase_chars(&t);
    let s = string_from_chars(l.as_slice());
    if same_text(s.as_str(), "listener") || same_text(s.as_str(), "speaker") {
        Ok(s)
    } else {
        Err(error(BAD_REQUEST, "role must be listener or speaker"))
    }
}

/// Whoever is admitted is admitted as a listener or as a speaker, nothing else.
pub proof fn law_granted_roles(raw: Seq<char>)
    ensures
        role_rule(raw) matches Ok(r) ==> grantable(r),
{
}

/// Refuses an acceptance by anyone but the host of the live broadcast.
pub fn check_host(is_host: bool) -> (r: Result<(), ApiError>)
    ensures
        !is_host ==> fails_with(r, FORBIDDEN, "only the host can accept"@),
        is_host ==> r is Ok,
{
    if is_host {
        Ok(())
    } else {
        Err(error(FORBIDDEN, "only the host can accept"))
    }
}

/// The user whose pending request is accepted, or a refusal where there is
/// no such pending request.
pub fn pending_requester(from: Option<i32>) -> (r: Result<i32, ApiError>)
    ensures
        match from {
            Some(u) => r == Ok::<i32, ApiError>(u),
            None => fails_with(r, NOT_FOUND, "join request not found"@),
        },
{
    match from {
        Some(u) => Ok(u),
        None => Err(error(NOT_FOUND, "join request not found")),
    }
}

/// The answer to rejecting a request, given how many pending requests were
/// rejected.
pub fn rejected_answer(updated: u64) -> (r: Result<(), ApiError>)
    ensures
        updated == 0 ==> fails_with(r, NOT_FOUND, "join request not found"@),
        updated != 0 ==> r is Ok,
{
    if updated == 0 {
        Err(error(NOT_FOUND, "join request not found"))
    } else {
        Ok(())
    }
}

// ---------------------------------------------------------------- speaking

/// What a speaking update does, given the member's role if they are a member
/// of the live broadcast: `Ok(true)` records it, `Ok(false)` ignores it (a
/// listener cannot speak).
pub open spec fn speaking_rule(role: Option<Seq<char>>) -> Result<bool, (u16, Seq<char>)> {
    match role {
        None => Err((FORBIDDEN, "not in this broadcast"@)),
        Some(r) => Ok(r != "listener"@),
    }
}

/// Decides what a speaking update does.
pub fn speaking_update(role: Option<&str>) -> (r: Result<bool, ApiError>)
    ensures
        outcome(r) == speaking_rule(
            match role {
                Some(x) => Some(x@),
                None => None,
            },
        ),
{
    match role {
        None => Err(error(FORBIDDEN, "not in this broadcast")),
        Some(x) => Ok(!same_text(x, "listener")),
    }
}

/// A listener's speaking updates are never recorded.
pub proof fn law_listeners_never_speak()
    ensures
        speaking_rule(Some("listener"@)) == Ok::<bool, (u16, Seq<char>)>(false),
{
}

} // verus!
