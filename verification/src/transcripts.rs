//! Speech logs: transcribed lines of a live broadcast, kept in the database
//! and in one text file per broadcast.

use vstd::prelude::*;
use crate::accounts::UserView;
use crate::api::{
    error, fails_with, outcome, text_outcome, ApiError, BAD_REQUEST, FORBIDDEN,
    TOO_MANY_REQUESTS,
};
use crate::clock::{in_calendar_range, rfc3339_text, secs_of, subsec_of};
use crate::text::{
    char_is_control, char_is_whitespace, chars_of, concat_chars, copy_range, is_control,
    is_white_space, lemma_filter_take_is_prefix, starts_with, string_from_chars, trim, trim_str,
};

verus! {

/// A transcribed line sent by a member.
pub struct TranscriptRequest {
    pub body: String,
}

/// A stored transcribed line.
pub struct TranscriptView {
    pub id: i32,
    pub body: String,
    pub from: UserView,
    pub created_at: String,
}

/// The longest transcribed line, in characters.
pub const MAX_TRANSCRIPT_LEN: usize = 2000;

/// How many lines one member may send within ten seconds.
pub const TRANSCRIPT_BURST: i64 = 20;

/// `s` with every control character replaced by a space.
pub open spec fn controls_to_spaces(s: Seq<char>) -> Seq<char> {
    s.map_values(|c: char| if is_control(c) { ' ' } else { c })
}

/// The words of `s` (maximal runs without white space) joined by single
/// spaces: each character that is not white space is kept, preceded by one
/// space where white space separates it from an earlier kept character.
pub open spec fn collapse_spaces(s: Seq<char>) -> Seq<char>
    decreases s.len(),
{
    if s.len() == 0 {
        Seq::empty()
    } else {
        let prev = collapse_spaces(s.drop_last());
        let c = s.last();
        if is_white_space(c) {
            prev
        } else if prev.len() > 0 && is_white_space(s[s.len() - 2]) {
            prev + seq![' ', c]
        } else {
            prev.push(c)
        }
    }
}

/// A transcribed line as stored: control characters become spaces, runs of
/// white space become single spaces between words, and the result is cut to
/// 2000 characters.
pub open spec fn transcript_text(raw: Seq<char>) -> Seq<char> {
    let c = collapse_spaces(controls_to_spaces(raw));
    if c.len() <= MAX_TRANSCRIPT_LEN {
        c
    } else {
        c.take(MAX_TRANSCRIPT_LEN as int)
    }
}

/// A transcribed line as stored.
pub fn normalize_transcript(raw: &str) -> (r: String)
    ensures
        r@ == transcript_text(raw@),
{
    let cs = chars_of(raw);
    let ghost m = controls_to_spaces(cs@);
    let mut out: Vec<char> = Vec::new();
    let mut gap = false;
    let mut i: usize = 0;
    while i < cs.len()
        invariant
            i <= cs@.len() == m.len(),
            m == controls_to_spaces(cs@),
            out@ == collapse_spaces(m.take(i as int)),
            gap == (i > 0 && is_white_space(m[i - 1])),
        decreases cs.len() - i,
    {
        let c = if char_is_control(cs[i]) {
            ' '
        } else {
            cs[i]
        };
        assert(c == m[i as int]);
        let ghost t = m.take(i + 1);
        assert(t.drop_last() =~= m.take(i as int));
        assert(t.last() == c);
        if char_is_whitespace(c) {
            gap = true;
        } else {
            if out.len() > 0 && gap {
                out.push(' ');
            }
            out.push(c);
            gap = false;
            proof {
                if i > 0 {
                    assert(t[t.len() - 2] == m[i - 1]);
                }
            }
        }
        i = i + 1;
    }
    assert(m.take(cs@.len() as int) =~= m);
    let k = if out.len() <= MAX_TRANSCRIPT_LEN {
        out.len()
    } else {
        MAX_TRANSCRIPT_LEN
    };
    let cut = copy_range(&out, 0, k);
    string_from_chars(cut.as_slice())
}

/// Whether `s` is tidy: no control characters, no white space but single
/// spaces between other characters, no space at the start or the end.
pub open spec fn tidy(s: Seq<char>) -> bool {
    &&& forall|i: int| 0 <= i < s.len() ==> !is_control(#[trigger] s[i])
    &&& forall|i: int| 0 <= i < s.len() && #[trigger] is_white_space(s[i]) ==> s[i] == ' '
    &&& s.len() > 0 ==> s[0] != ' ' && s.last() != ' '
    &&& forall|i: int| 0 <= i < s.len() - 1 ==> !(#[trigger] s[i] == ' ' && s[i + 1] == ' ')
}

pub proof fn lemma_collapse_tidy(s: Seq<char>)
    requires
        forall|i: int| 0 <= i < s.len() ==> !is_control(#[trigger] s[i]),
    ensures
        tidy(collapse_spaces(s)),
    decreases s.len(),
{
    if s.len() > 0 {
        assert forall|i: int| 0 <= i < s.drop_last().len() implies !is_control(
            #[trigger] s.drop_last()[i],
        ) by {
            assert(s.drop_last()[i] == s[i]);
        }
        lemma_collapse_tidy(s.drop_last());
        let prev = collapse_spaces(s.drop_last());
        let c = s.last();
        assert(!is_control(c));
        assert(!is_control(' '));
        if is_white_space(c) {
        } else if prev.len() > 0 && is_white_space(s[s.len() - 2]) {
            let r = prev + seq![' ', c];
            assert(r[r.len() - 1] == c);
            assert(r[r.len() - 2] == ' ');
            assert forall|i: int| 0 <= i < r.len() - 1 implies !(#[trigger] r[i] == ' ' && r[i + 1]
                == ' ') by {
                if i < prev.len() - 1 {
                    assert(r[i] == prev[i] && r[i + 1] == prev[i + 1]);
                } else if i == prev.len() - 1 {
                    assert(r[i] == prev.last());
                }
            }
            assert forall|i: int| 0 <= i < r.len() implies !is_control(#[trigger] r[i]) by {
                if i < prev.len() {
                    assert(r[i] == prev[i]);
                }
            }
            assert forall|i: int| 0 <= i < r.len() && #[trigger] is_white_space(r[i]) implies r[i]
                == ' ' by {
                if i < prev.len() {
                    assert(r[i] == prev[i]);
                }
            }
        } else {
            let r = prev.push(c);
            assert forall|i: int| 0 <= i < r.len() - 1 implies !(#[trigger] r[i] == ' ' && r[i + 1]
                == ' ') by {
                if i < prev.len() - 1 {
                    assert(r[i] == prev[i] && r[i + 1] == prev[i + 1]);
                }
            }
            assert forall|i: int| 0 <= i < r.len() implies !is_control(#[trigger] r[i]) by {
                if i < prev.len() {
                    assert(r[i] == prev[i]);
                }
            }
            assert forall|i: int| 0 <= i < r.len() && #[trigger] is_white_space(r[i]) implies r[i]
                == ' ' by {
                if i < prev.len() {
                    assert(r[i] == prev[i]);
                }
            }
        }
    }
}

/// A stored transcribed line holds no control characters, no white space but
/// single spaces between words, does not start with a space, and is at most
/// 2000 characters; uncut, it does not end with a space either.
pub proof fn law_transcripts_are_tidy(raw: Seq<char>)
    ensures
        transcript_text(raw).len() <= MAX_TRANSCRIPT_LEN,
        collapse_spaces(controls_to_spaces(raw)).len() <= MAX_TRANSCRIPT_LEN ==> tidy(
            transcript_text(raw),
        ),
        forall|i: int|
            0 <= i < transcript_text(raw).len() ==> !is_control(#[trigger] transcript_text(raw)[i]),
        transcript_text(raw).len() > 0 ==> transcript_text(raw)[0] != ' ',
{
    let m = controls_to_spaces(raw);
    assert forall|i: int| 0 <= i < m.len() implies !is_control(#[trigger] m[i]) by {
        assert(!is_control(' '));
    }
    lemma_collapse_tidy(m);
    let c = collapse_spaces(m);
    let t = transcript_text(raw);
    assert forall|i: int| 0 <= i < t.len() implies !is_control(#[trigger] t[i]) by {
        assert(t[i] == c[i]);
    }
    if t.len() > 0 {
        assert(t[0] == c[0]);
    }
}

/// Whether `c` belongs to a word: neither a control character nor white
/// space.
pub open spec fn word_char() -> spec_fn(char) -> bool {
    |c: char| !is_control(c) && !is_white_space(c)
}

/// Whether `c` is not a space.
pub open spec fn not_space() -> spec_fn(char) -> bool {
    |c: char| c != ' '
}

pub proof fn lemma_controls_keep_words(s: Seq<char>)
    ensures
        controls_to_spaces(s).filter(word_char()) == s.filter(word_char()),
    decreases s.len(),
{
    reveal_with_fuel(Seq::filter, 1);
    if s.len() > 0 {
        lemma_controls_keep_words(s.drop_last());
        assert(controls_to_spaces(s).drop_last() =~= controls_to_spaces(s.drop_last()));
        assert(is_white_space(' '));
    }
}

pub proof fn lemma_collapse_keeps_words(s: Seq<char>)
    requires
        forall|i: int| 0 <= i < s.len() ==> !is_control(#[trigger] s[i]),
    ensures
        collapse_spaces(s).filter(not_space()) == s.filter(word_char()),
    decreases s.len(),
{
    reveal_with_fuel(Seq::filter, 2);
    if s.len() > 0 {
        assert forall|i: int| 0 <= i < s.drop_last().len() implies !is_control(
            #[trigger] s.drop_last()[i],
        ) by {
            assert(s.drop_last()[i] == s[i]);
        }
        lemma_collapse_keeps_words(s.drop_last());
        let prev = collapse_spaces(s.drop_last());
        let c = s.last();
        assert(!is_control(c));
        assert(is_white_space(' '));
        if is_white_space(c) {
        } else if prev.len() > 0 && is_white_space(s[s.len() - 2]) {
            let tail = seq![' ', c];
            assert(tail.drop_last() =~= seq![' ']);
            assert(seq![' '].drop_last() =~= Seq::<char>::empty());
            assert(c != ' ');
            assert(Seq::<char>::empty().filter(not_space()) == Seq::<char>::empty());
            assert(seq![' '].filter(not_space()) == seq![' '].drop_last().filter(not_space()));
            assert(seq![' '].filter(not_space()) =~= Seq::<char>::empty());
            assert(tail.filter(not_space()) == tail.drop_last().filter(not_space()).push(c));
            assert(tail.filter(not_space()) =~= seq![c]);
            Seq::filter_distributes_over_add(prev, tail, not_space());
            assert(prev.filter(not_space()) + seq![c] =~= prev.filter(not_space()).push(c));
        } else {
            assert(prev.push(c).drop_last() =~= prev);
        }
    }
}

/// Every character of a transcribed line that is neither a control character
/// nor white space is kept in the stored line, in order, and the stored line
/// holds no other character but spaces: its non-space characters are the
/// first of the raw line's word characters, and all of them unless the line
/// was cut at 2000 characters.
pub proof fn law_transcripts_keep_every_word_character(raw: Seq<char>)
    ensures
        transcript_text(raw).filter(not_space()).is_prefix_of(raw.filter(word_char())),
        transcript_text(raw).len() < MAX_TRANSCRIPT_LEN ==> transcript_text(raw).filter(
            not_space(),
        ) == raw.filter(word_char()),
{
    let m = controls_to_spaces(raw);
    assert forall|i: int| 0 <= i < m.len() implies !is_control(#[trigger] m[i]) by {
        assert(!is_control(' '));
    }
    lemma_controls_keep_words(raw);
    lemma_collapse_keeps_words(m);
    let c = collapse_spaces(m);
    if c.len() <= MAX_TRANSCRIPT_LEN {
        assert(c.filter(not_space()).subrange(0, c.filter(not_space()).len() as int) =~= c.filter(
            not_space(),
        ));
    } else {
        lemma_filter_take_is_prefix(c, not_space(), MAX_TRANSCRIPT_LEN as int);
    }
}

pub proof fn lemma_collapse_ignores_trailing_gap(x: Seq<char>, y: Seq<char>)
    requires
        forall|i: int| 0 <= i < y.len() ==> is_white_space(#[trigger] y[i]),
    ensures
        collapse_spaces(x + y) == collapse_spaces(x),
    decreases y.len(),
{
    if y.len() == 0 {
        assert(x + y =~= x);
    } else {
        assert forall|i: int| 0 <= i < y.drop_last().len() implies is_white_space(
            #[trigger] y.drop_last()[i],
        ) by {
            assert(y.drop_last()[i] == y[i]);
        }
        lemma_collapse_ignores_trailing_gap(x, y.drop_last());
        assert((x + y).drop_last() =~= x + y.drop_last());
        assert((x + y).last() == y.last());
        assert(is_white_space(y[y.len() - 1]));
    }
}

pub proof fn lemma_collapse_word_after_gap(x: Seq<char>, w: Seq<char>)
    requires
        x.len() > 0,
        is_white_space(x.last()),
        w.len() > 0,
        forall|i: int| 0 <= i < w.len() ==> !is_white_space(#[trigger] w[i]),
    ensures
        collapse_spaces(x + w) == if collapse_spaces(x).len() > 0 {
            collapse_spaces(x) + seq![' '] + w
        } else {
            w
        },
    decreases w.len(),
{
    let s = x + w;
    assert(s.last() == w.last());
    assert(!is_white_space(w[w.len() - 1]));
    if w.len() == 1 {
        assert(s.drop_last() =~= x);
        assert(s[s.len() - 2] == x.last());
        assert(seq![' '] + w =~= seq![' ', w.last()]);
        if collapse_spaces(x).len() == 0 {
            assert(collapse_spaces(x).push(w.last()) =~= w);
        } else {
            assert(collapse_spaces(x) + seq![' ', w.last()] =~= collapse_spaces(x) + seq![' '] + w);
        }
    } else {
        assert forall|i: int| 0 <= i < w.drop_last().len() implies !is_white_space(
            #[trigger] w.drop_last()[i],
        ) by {
            assert(w.drop_last()[i] == w[i]);
        }
        lemma_collapse_word_after_gap(x, w.drop_last());
        assert(s.drop_last() =~= x + w.drop_last());
        assert(s[s.len() - 2] == w[w.len() - 2]);
        assert(!is_white_space(w[w.len() - 2]));
        if collapse_spaces(x).len() > 0 {
            assert((collapse_spaces(x) + seq![' '] + w.drop_last()).push(w.last()) =~= collapse_spaces(x)
                + seq![' '] + w);
        } else {
            assert(w.drop_last().push(w.last()) =~= w);
        }
    }
}

/// Words are joined by single spaces: a line `a` followed by a gap `g` of
/// white space and control characters and then a word `w` is stored as `a`
/// is stored, then one space (none where nothing is stored of `a`), then
/// `w` unchanged; this holds wherever the stored line is not cut at 2000
/// characters.
pub proof fn law_gap_before_a_word_is_one_space(a: Seq<char>, g: Seq<char>, w: Seq<char>)
    requires
        g.len() > 0,
        forall|i: int| 0 <= i < g.len() ==> is_control(#[trigger] g[i]) || is_white_space(g[i]),
        w.len() > 0,
        forall|i: int| 0 <= i < w.len() ==> !is_control(#[trigger] w[i]) && !is_white_space(w[i]),
        transcript_text(a + g + w).len() < MAX_TRANSCRIPT_LEN,
    ensures
        transcript_text(a + g + w) == if transcript_text(a).len() > 0 {
            transcript_text(a) + seq![' '] + w
        } else {
            w
        },
{
    let ca = controls_to_spaces(a);
    let cg = controls_to_spaces(g);
    let cw = controls_to_spaces(w);
    assert(controls_to_spaces(a + g + w) =~= ca + cg + cw);
    assert(cw =~= w);
    assert forall|i: int| 0 <= i < cg.len() implies is_white_space(#[trigger] cg[i]) by {
        assert(is_white_space(' '));
    }
    lemma_collapse_ignores_trailing_gap(ca, cg);
    assert forall|i: int| 0 <= i < w.len() implies !is_white_space(#[trigger] w[i]) by {}
    assert((ca + cg).last() == cg.last());
    assert(is_white_space(cg[cg.len() - 1]));
    lemma_collapse_word_after_gap(ca + cg, w);
    let whole = collapse_spaces(ca + cg + w);
    assert(whole.len() <= MAX_TRANSCRIPT_LEN);
    assert(collapse_spaces(ca).len() <= whole.len());
}

/// The text of a transcribed line, or a refusal where nothing is left of it.
pub fn transcript_body(raw: &str) -> (r: Result<String, ApiError>)
    ensures
        match r {
            Ok(t) => t@ == transcript_text(raw@) && t@.len() > 0,
            Err(e) => transcript_text(raw@).len() == 0 && e@ == (BAD_REQUEST, "transcript is empty"@),
        },
{
    let t = normalize_transcript(raw);
    let tc = chars_of(t.as_str());
    if tc.len() == 0 {
        Err(error(BAD_REQUEST, "transcript is empty"))
    } else {
        Ok(t)
    }
}

/// Whether a member may send a transcribed line now: only members of the
/// live broadcast, and at most twenty within ten seconds.
pub open spec fn transcript_admission_rule(is_member: bool, recent: i64) -> Result<(), (u16, Seq<char>)> {
    if !is_member {
        Err((FORBIDDEN, "not in this broadcast"@))
    } else if recent >= TRANSCRIPT_BURST {
        Err((TOO_MANY_REQUESTS, "slow down a little"@))
    } else {
        Ok(())
    }
}

/// Admits or refuses a transcribed line.
pub fn transcript_admission(is_member: bool, recent: i64) -> (r: Result<(), ApiError>)
    ensures
        outcome(r) == transcript_admission_rule(is_member, recent),
{
    if !is_member {
        Err(error(FORBIDDEN, "not in this broadcast"))
    } else if recent >= TRANSCRIPT_BURST {
        Err(error(TOO_MANY_REQUESTS, "slow down a little"))
    } else {
        Ok(())
    }
}

/// The digit character for `d` below ten.
pub open spec fn digit_char(d: int) -> char {
    seq!['0', '1', '2', '3', '4', '5', '6', '7', '8', '9'][d]
}

/// The decimal digits of `n`.
pub open spec fn digits_of(n: nat) -> Seq<char>
    decreases n,
{
    if n < 10 {
        seq![digit_char(n as int)]
    } else {
        digits_of(n / 10).push(digit_char((n % 10) as int))
    }
}

/// `n` in decimal, with a minus sign when negative.
pub open spec fn decimal_text(n: int) -> Seq<char> {
    if n < 0 {
        seq!['-'] + digits_of((-n) as nat)
    } else {
        digits_of(n as nat)
    }
}

fn digit(d: u64) -> (r: char)
    requires
        d < 10,
    ensures
        r == digit_char(d as int),
{
    let ds: [char; 10] = ['0', '1', '2', '3', '4', '5', '6', '7', '8', '9'];
    assert(ds@ =~= seq!['0', '1', '2', '3', '4', '5', '6', '7', '8', '9']);
    ds[d as usize]
}

fn digits(n: u64) -> (r: Vec<char>)
    ensures
        r@ == digits_of(n as nat),
    decreases n,
{
    if n < 10 {
        vec![digit(n)]
    } else {
        let mut v = digits(n / 10);
        v.push(digit(n % 10));
        v
    }
}

/// `n` in decimal.
pub fn decimal(n: i32) -> (r: Vec<char>)
    ensures
        r@ == decimal_text(n as int),
{
    if n < 0 {
        let m: u64 = (0 - (n as i64)) as u64;
        let d = digits(m);
        let minus: Vec<char> = vec!['-'];
        concat_chars(&minus, &d)
    } else {
        digits(n as u64)
    }
}

fn append_text(a: &Vec<char>, s: &str) -> (r: Vec<char>)
    ensures
        r@ == a@ + s@,
{
    let b = chars_of(s);
    concat_chars(a, &b)
}

/// Where the speech log of a broadcast lives, under the log directory: one
/// folder per day, one file per broadcast.
pub fn log_rel_path(day: &str, broadcast_id: i32) -> (r: String)
    ensures
        r@ == day@ + "/broadcast-"@ + decimal_text(broadcast_id as int) + ".txt"@,
{
    let a = chars_of(day);
    let b = append_text(&a, "/broadcast-");
    let d = decimal(broadcast_id);
    let c = concat_chars(&b, &d);
    let e = append_text(&c, ".txt");
    string_from_chars(e.as_slice())
}

/// `s` with every `\` replaced by `/`.
pub open spec fn forward_slashes(s: Seq<char>) -> Seq<char> {
    s.map_values(|c: char| if c == '\\' { '/' } else { c })
}

/// `rel` placed under the directory `root`, as a Unix path join does: an
/// absolute `rel` stands alone, and one `/` separates the two where `root`
/// does not end with one.
pub open spec fn joined_path(root: Seq<char>, rel: Seq<char>) -> Seq<char> {
    let r = forward_slashes(rel);
    if r.len() > 0 && r[0] == '/' {
        r
    } else if root.len() == 0 || root.last() == '/' {
        root + r
    } else {
        root + seq!['/'] + r
    }
}

/// The path of a speech log file, from the log directory and the stored
/// relative path (whose `\` separators count as `/`).
pub fn abs_log_path(root: &str, rel: &str) -> (r: String)
    ensures
        r@ == joined_path(root@, rel@),
{
    let rc = chars_of(rel);
    let mut fwd: Vec<char> = Vec::new();
    let mut i: usize = 0;
    while i < rc.len()
        invariant
            i <= rc@.len(),
            fwd@ == forward_slashes(rc@.take(i as int)),
        decreases rc.len() - i,
    {
        let c = rc[i];
        fwd.push(if c == '\\' { '/' } else { c });
        i = i + 1;
        assert(fwd@ =~= forward_slashes(rc@.take(i as int)));
    }
    assert(rc@.take(rc@.len() as int) =~= rc@);
    let root_c = chars_of(root);
    if fwd.len() > 0 && fwd[0] == '/' {
        string_from_chars(fwd.as_slice())
    } else if root_c.len() == 0 || root_c[root_c.len() - 1] == '/' {
        let all = concat_chars(&root_c, &fwd);
        string_from_chars(all.as_slice())
    } else {
        let slash: Vec<char> = vec!['/'];
        let a = concat_chars(&root_c, &slash);
        let all = concat_chars(&a, &fwd);
        string_from_chars(all.as_slice())
    }
}

/// The title line of a speech log: the title on one line, or `(untitled)`.
pub open spec fn title_line(title: Seq<char>) -> Seq<char> {
    if trim(title).len() == 0 {
        "(untitled)"@
    } else {
        title.map_values(|c: char| if c == '\n' { ' ' } else { c })
    }
}

/// The header that opens the speech log of a broadcast.
pub fn log_header(broadcast_id: i32, started_at: &str, host: &str, title: &str) -> (r: String)
    ensures
        r@ == "# Sosial Video speech log\n# broadcast_id: "@ + decimal_text(broadcast_id as int)
            + "\n# started_at: "@ + started_at@ + "\n# host: "@ + host@ + "\n# title: "@
            + title_line(title@) + "\n#\n"@,
{
    let t = trim_str(title);
    let line: Vec<char> = if t.len() == 0 {
        chars_of("(untitled)")
    } else {
        let tc = chars_of(title);
        let mut l: Vec<char> = Vec::new();
        let mut i: usize = 0;
        while i < tc.len()
            invariant
                i <= tc@.len(),
                l@ == tc@.take(i as int).map_values(|c: char| if c == '\n' { ' ' } else { c }),
            decreases tc.len() - i,
        {
            let c = tc[i];
            l.push(if c == '\n' { ' ' } else { c });
            i = i + 1;
            assert(l@ =~= tc@.take(i as int).map_values(|c: char| if c == '\n' { ' ' } else { c }));
        }
        assert(tc@.take(tc@.len() as int) =~= tc@);
        l
    };
    let a0: Vec<char> = Vec::new();
    let a1 = append_text(&a0, "# Sosial Video speech log\n# broadcast_id: ");
    let d = decimal(broadcast_id);
    let a2 = concat_chars(&a1, &d);
    let a3 = append_text(&a2, "\n# started_at: ");
    let a4 = append_text(&a3, started_at);
    let a5 = append_text(&a4, "\n# host: ");
    let a6 = append_text(&a5, host);
    let a7 = append_text(&a6, "\n# title: ");
    let a8 = concat_chars(&a7, &line);
    let a9 = append_text(&a8, "\n#\n");
    assert(a1@ =~= "# Sosial Video speech log\n# broadcast_id: "@);
    string_from_chars(a9.as_slice())
}

/// The line a transcribed utterance adds to the speech log.
pub fn utterance_line(stamp: &str, username: &str, body: &str) -> (r: String)
    ensures
        r@ == seq!['['] + stamp@ + seq![']', ' '] + username@ + seq![':', ' '] + body@ + seq!['\n'],
{
    let a0: Vec<char> = vec!['['];
    let a1 = append_text(&a0, stamp);
    let s2: Vec<char> = vec![']', ' '];
    let a2 = concat_chars(&a1, &s2);
    let a3 = append_text(&a2, username);
    let s4: Vec<char> = vec![':', ' '];
    let a4 = concat_chars(&a3, &s4);
    let a5 = append_text(&a4, body);
    let s6: Vec<char> = vec!['\n'];
    let a6 = concat_chars(&a5, &s6);
    string_from_chars(a6.as_slice())
}

/// The line that closes the speech log of an ended broadcast.
pub fn ended_line(stamp: &str) -> (r: String)
    ensures
        r@ == "# ended_at: "@ + stamp@ + seq!['\n'],
{
    let a0: Vec<char> = Vec::new();
    let a1 = append_text(&a0, "# ended_at: ");
    let a2 = append_text(&a1, stamp);
    let nl: Vec<char> = vec!['\n'];
    let a3 = concat_chars(&a2, &nl);
    assert(a1@ =~= "# ended_at: "@);
    string_from_chars(a3.as_slice())
}

} // verus!
