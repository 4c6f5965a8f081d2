//! Human rendering of the command-line client: relative times, the message
//! timeline and conversation rows.

use vstd::prelude::*;
use vstd::string::StringSliceAdditionalSpecFns;
use vstd::utf8::{decode_utf8, encode_utf8, is_char_boundary};

use crate::protocol::{
    AgentInfo, AttachmentInfo, ConversationKind, ConversationSummary, Message, ParticipantInfo,
    TokenInfo,
};
use crate::client::Aliases;
use crate::session::{split_char, split_chars, lemma_split_char_nonempty};
use crate::text::{
    chars_of, contains_seq, decimal, first_chars, push_char, push_chars, push_str, str_eq, string_of, take_chars,
    to_owned_string, u64_to_decimal,
};

verus! {

broadcast use vstd::utf8::encode_utf8_decode_utf8;

// ---------- relative time ----------

/// `just now`, `<m>m ago`, `<h>h ago` or `<d>d ago` for an age in seconds.
pub open spec fn rel_time_spec(secs: int) -> Seq<char> {
    if secs < 60 {
        "just now"@
    } else if secs / 60 < 60 {
        decimal((secs / 60) as nat) + "m ago"@
    } else if secs / 3600 < 24 {
        decimal((secs / 3600) as nat) + "h ago"@
    } else {
        decimal((secs / 86400) as nat) + "d ago"@
    }
}

pub fn rel_time(elapsed_secs: i64) -> (s: String)
    ensures
        s@ == rel_time_spec(elapsed_secs as int),
{
    let mut s = String::new();
    if elapsed_secs < 60 {
        push_str(&mut s, "just now");
    } else {
        let secs = elapsed_secs as u64;
        if secs / 60 < 60 {
            let n = u64_to_decimal(secs / 60);
            push_str(&mut s, n.as_str());
            push_str(&mut s, "m ago");
        } else if secs / 3600 < 24 {
            let n = u64_to_decimal(secs / 3600);
            push_str(&mut s, n.as_str());
            push_str(&mut s, "h ago");
        } else {
            let n = u64_to_decimal(secs / 86400);
            push_str(&mut s, n.as_str());
            push_str(&mut s, "d ago");
        }
    }
    assert(s@ =~= rel_time_spec(elapsed_secs as int));
    s
}

// ---------- timeline ----------

/// The first 8 bytes of an identifier, as characters (`&id[..8]`).
pub open spec fn short_id(id: Seq<char>) -> Seq<char> {
    decode_utf8(encode_utf8(id).subrange(0, 8))
}

/// `&id[..8]` is defined: byte 8 is a character boundary.
pub open spec fn has_short_id(id: Seq<char>) -> bool {
    is_char_boundary(encode_utf8(id), 8)
}

pub fn short_id_of(id: &str) -> (s: String)
    requires
        has_short_id(id@),
    ensures
        s@ == short_id(id@),
{
    let (a, _rest) = id.split_at(8);
    assert(a@ == decode_utf8(a.spec_bytes()));
    let mut s = String::new();
    push_str(&mut s, a);
    assert(s@ =~= short_id(id@));
    s
}

pub open spec fn spaces(n: nat) -> Seq<char> {
    Seq::new(n, |i: int| ' ')
}

/// Left-aligned in a field of 12 characters (`{:<12}`).
pub open spec fn pad12(s: Seq<char>) -> Seq<char> {
    if s.len() < 12 {
        s + spaces((12 - s.len()) as nat)
    } else {
        s
    }
}

fn push_padded12(out: &mut String, s: &Vec<char>)
    ensures
        final(out)@ == old(out)@ + pad12(s@),
{
    push_chars(out, s);
    let mut n = s.len();
    let ghost base = old(out)@ + s@;
    while n < 12
        invariant
            s@.len() <= n <= 12 || (n == s@.len() && n >= 12),
            out@ == base + spaces((n - s@.len()) as nat),
        decreases 12 - n,
    {
        push_char(out, ' ');
        assert(out@ =~= base + spaces((n + 1 - s@.len()) as nat));
        n = n + 1;
    }
    assert(out@ =~= old(out)@ + pad12(s@));
}

/// A line of a message text, without the `\r` of a `\r\n` ending.
pub open spec fn strip_cr(s: Seq<char>) -> Seq<char> {
    if s.len() > 0 && s.last() == '\r' {
        s.drop_last()
    } else {
        s
    }
}

/// The lines of a text (`str::lines`): split at `\n`, each line but the
/// last without a trailing `\r`; an empty last piece is no line.
pub open spec fn text_lines(t: Seq<char>) -> Seq<Seq<char>> {
    let ps = split_char(t, '\n');
    let body = Seq::new((ps.len() - 1) as nat, |i: int| strip_cr(ps[i]));
    if ps.last().len() > 0 {
        body.push(ps.last())
    } else {
        body
    }
}

/// Lines joined by `\n`.
pub open spec fn join_lines(ls: Seq<Seq<char>>) -> Seq<char>
    decreases ls.len(),
{
    if ls.len() == 0 {
        Seq::<char>::empty()
    } else if ls.len() == 1 {
        ls[0]
    } else {
        join_lines(ls.drop_last()) + seq!['\n'] + ls.last()
    }
}

/// The head of a timeline line: `HH:MM sender______ | `.
pub open spec fn line_head(hhmm: Seq<char>, sender: Seq<char>) -> Seq<char> {
    hhmm + seq![' '] + pad12(sender) + " | "@
}

/// The head of a continuation line: 6 spaces, an empty field, ` | `.
pub open spec fn cont_head() -> Seq<char> {
    spaces(6) + spaces(12) + " | "@
}

/// The line of an attachment: `[image <name> sha256:<8 bytes>… id=<id>]`.
pub open spec fn attachment_line(head: Seq<char>, a: AttachmentInfo) -> Seq<char> {
    head + "[image "@ + a.file_name@ + " sha256:"@ + short_id(a.sha256@) + "… id="@ + a.id@
        + "]"@
}

/// The text lines of a message: the first under the head, the others
/// under a continuation head.
pub open spec fn text_part(head: Seq<char>, text: Option<String>) -> Seq<Seq<char>> {
    match text {
        Some(t) => {
            let ls = text_lines(t@);
            Seq::new(ls.len(), |i: int| if i == 0 { head + ls[i] } else { cont_head() + ls[i] })
        },
        None => Seq::<Seq<char>>::empty(),
    }
}

/// The sender shown: its key, or the first 8 bytes of its id.
pub open spec fn sender_shown(m: Message) -> Seq<char> {
    match m.sender_key {
        Some(k) => k@,
        None => short_id(m.sender_id@),
    }
}

/// The timeline rendering of a message: its text lines, one line per
/// attachment, or `(empty)` when there is neither.
pub open spec fn timeline_spec(m: Message, hhmm: Seq<char>) -> Seq<char> {
    let head = line_head(hhmm, sender_shown(m));
    let lines = text_part(head, m.text) + Seq::new(
        m.attachments@.len(),
        |i: int| attachment_line(head, m.attachments@[i]),
    );
    if lines.len() == 0 {
        head + "(empty)"@
    } else {
        join_lines(lines)
    }
}

/// What `timeline_line` needs: the id slices it shows are defined.
pub open spec fn timeline_renderable(m: &Message) -> bool {
    &&& m.sender_key is None ==> has_short_id(m.sender_id@)
    &&& forall|i: int|
        0 <= i < m.attachments@.len() ==> has_short_id(#[trigger] m.attachments@[i].sha256@)
}

/// Whether `&id[..8]` is defined.
pub fn short_id_ok(id: &str) -> (b: bool)
    ensures
        b == has_short_id(id@),
{
    id.is_char_boundary(8)
}

/// Whether `timeline_line` can render the message: the ids it shows must
/// be long enough to cut at byte 8.
pub fn timeline_ready(m: &Message) -> (b: bool)
    ensures
        b == timeline_renderable(m),
{
    if m.sender_key.is_none() && !short_id_ok(m.sender_id.as_str()) {
        return false;
    }
    let mut i: usize = 0;
    while i < m.attachments.len()
        invariant
            i <= m.attachments@.len(),
            forall|k: int| 0 <= k < i ==> has_short_id(#[trigger] m.attachments@[k].sha256@),
        decreases m.attachments.len() - i,
    {
        if !short_id_ok(m.attachments[i].sha256.as_str()) {
            return false;
        }
        i = i + 1;
    }
    true
}

fn text_lines_of(t: &str) -> (ls: Vec<Vec<char>>)
    ensures
        ls@.len() == text_lines(t@).len(),
        forall|i: int| 0 <= i < ls@.len() ==> (#[trigger] ls@[i])@ == text_lines(t@)[i],
{
    let v = chars_of(t);
    let ps = split_chars(&v, '\n');
    proof {
        lemma_split_char_nonempty(v@, '\n');
    }
    let ghost sp = split_char(t@, '\n');
    let mut ls: Vec<Vec<char>> = Vec::new();
    let mut i: usize = 0;
    while i + 1 < ps.len()
        invariant
            ps@.len() == sp.len(),
            sp.len() >= 1,
            sp == split_char(t@, '\n'),
            forall|k: int| 0 <= k < ps@.len() ==> (#[trigger] ps@[k])@ == sp[k],
            i <= ps@.len() - 1,
            ls@.len() == i,
            forall|k: int| 0 <= k < i ==> (#[trigger] ls@[k])@ == strip_cr(sp[k]),
        decreases ps.len() - i,
    {
        let p = &ps[i];
        let mut line: Vec<char> = Vec::new();
        let end = if p.len() > 0 && p[p.len() - 1] == '\r' {
            p.len() - 1
        } else {
            p.len()
        };
        let mut k: usize = 0;
        while k < end
            invariant
                end <= p@.len(),
                k <= end,
                line@ == p@.take(k as int),
            decreases end - k,
        {
            line.push(p[k]);
            k = k + 1;
            assert(line@ =~= p@.take(k as int));
        }
        assert(line@ =~= strip_cr(sp[i as int]));
        ls.push(line);
        i = i + 1;
    }
    let last_idx = ps.len() - 1;
    if ps[last_idx].len() > 0 {
        let last = ps[last_idx].clone();
        ls.push(last);
    }
    proof {
        let body = Seq::new((sp.len() - 1) as nat, |j: int| strip_cr(sp[j]));
        assert forall|j: int| 0 <= j < ls@.len() implies (#[trigger] ls@[j])@ == text_lines(
            t@,
        )[j] by {
            if j < body.len() {
                assert(text_lines(t@)[j] == body[j]);
            }
        }
    }
    ls
}

fn push_line_head(out: &mut String, hhmm: &str, sender: &Vec<char>)
    ensures
        final(out)@ == old(out)@ + line_head(hhmm@, sender@),
{
    push_str(out, hhmm);
    push_char(out, ' ');
    push_padded12(out, sender);
    push_str(out, " | ");
    assert(out@ =~= old(out)@ + line_head(hhmm@, sender@));
}

proof fn lemma_join_lines_contains(ls: Seq<Seq<char>>, i: int)
    requires
        0 <= i < ls.len(),
    ensures
        contains_seq(join_lines(ls), ls[i]),
    decreases ls.len(),
{
    let j = join_lines(ls);
    if ls.len() == 1 {
        assert(i == 0);
        assert(j.subrange(0int, 0int + ls[i].len()) =~= ls[i]);
    } else {
        let pre = join_lines(ls.drop_last());
        assert(j == pre + seq!['\n'] + ls.last());
        if i == ls.len() - 1 {
            let k: int = pre.len() as int + 1;
            assert(j.subrange(k, k + ls[i].len()) =~= ls[i]);
        } else {
            lemma_join_lines_contains(ls.drop_last(), i);
            assert(ls.drop_last()[i] == ls[i]);
            let k = choose|k: int|
                0 <= k && k + ls[i].len() <= pre.len() && #[trigger] pre.subrange(
                    k,
                    k + ls[i].len(),
                ) == ls[i];
            assert(j.subrange(k, k + ls[i].len()) =~= pre.subrange(k, k + ls[i].len()));
        }
    }
}

proof fn lemma_join_lines_ends(ls: Seq<Seq<char>>)
    requires
        ls.len() > 0,
    ensures
        join_lines(ls).len() >= ls.last().len(),
        join_lines(ls).skip(join_lines(ls).len() - ls.last().len()) == ls.last(),
{
    let j = join_lines(ls);
    if ls.len() == 1 {
        assert(j.skip(0) =~= ls[0]);
    } else {
        let pre = join_lines(ls.drop_last());
        assert(j == pre + seq!['\n'] + ls.last());
        assert(j.skip(j.len() - ls.last().len()) =~= ls.last());
    }
}

proof fn lemma_contains_middle(s: Seq<char>, x: Seq<char>, p: Seq<char>, y: Seq<char>)
    requires
        contains_seq(s, x + p + y),
    ensures
        contains_seq(s, p),
{
    let w = x + p + y;
    let k = choose|k: int| 0 <= k && k + w.len() <= s.len() && #[trigger] s.subrange(k, k + w.len()) == w;
    let k2: int = k + x.len();
    let e: int = x.len() as int + p.len() as int;
    assert(s.subrange(k2, k2 + p.len()) =~= w.subrange(x.len() as int, e));
    assert(w.subrange(x.len() as int, e) =~= p);
}

/// No attachment is lost from the timeline: whatever the text, the
/// rendering holds a line for each attachment, and with it its id (the
/// handle `download` takes) and its file name; the last attachment's line
/// closes the rendering; a text's first line opens it; only a message
/// with neither text lines nor attachments shows `(empty)`.
pub proof fn law_timeline_shows_every_attachment(m: Message, hhmm: Seq<char>)
    ensures
        forall|i: int|
            0 <= i < m.attachments@.len() ==> contains_seq(
                timeline_spec(m, hhmm),
                #[trigger] attachment_line(line_head(hhmm, sender_shown(m)), m.attachments@[i]),
            ) && contains_seq(timeline_spec(m, hhmm), m.attachments@[i].id@) && contains_seq(
                timeline_spec(m, hhmm),
                m.attachments@[i].file_name@,
            ),
        m.attachments@.len() > 0 ==> ({
            let r = timeline_spec(m, hhmm);
            let l = attachment_line(line_head(hhmm, sender_shown(m)), m.attachments@.last());
            r.len() >= l.len() && r.skip(r.len() - l.len()) == l
        }),
        (m.text matches Some(t) && text_lines(t@).len() > 0) ==> ({
            let r = timeline_spec(m, hhmm);
            let f = line_head(hhmm, sender_shown(m)) + text_lines(m.text->0@)[0];
            r.len() >= f.len() && r.take(f.len() as int) == f
        }),
        timeline_spec(m, hhmm) == line_head(hhmm, sender_shown(m)) + "(empty)"@ <== (
        m.attachments@.len() == 0 && (m.text is None || text_lines(m.text->0@).len() == 0)),
{
    let head = line_head(hhmm, sender_shown(m));
    let tp = text_part(head, m.text);
    let ap = Seq::new(m.attachments@.len(), |i: int| attachment_line(head, m.attachments@[i]));
    let lines = tp + ap;
    assert forall|i: int| 0 <= i < m.attachments@.len() implies contains_seq(
        timeline_spec(m, hhmm),
        #[trigger] attachment_line(head, m.attachments@[i]),
    ) && contains_seq(timeline_spec(m, hhmm), m.attachments@[i].id@) && contains_seq(
        timeline_spec(m, hhmm),
        m.attachments@[i].file_name@,
    ) by {
        let a = m.attachments@[i];
        assert(lines[tp.len() + i] == attachment_line(head, a));
        lemma_join_lines_contains(lines, tp.len() + i);
        let l = attachment_line(head, a);
        assert(l =~= (head + "[image "@ + a.file_name@ + " sha256:"@ + short_id(a.sha256@)
            + "… id="@) + a.id@ + "]"@);
        lemma_contains_middle(
            timeline_spec(m, hhmm),
            head + "[image "@ + a.file_name@ + " sha256:"@ + short_id(a.sha256@) + "… id="@,
            a.id@,
            "]"@,
        );
        assert(l =~= (head + "[image "@) + a.file_name@ + (" sha256:"@ + short_id(a.sha256@)
            + "… id="@ + a.id@ + "]"@));
        lemma_contains_middle(
            timeline_spec(m, hhmm),
            head + "[image "@,
            a.file_name@,
            " sha256:"@ + short_id(a.sha256@) + "… id="@ + a.id@ + "]"@,
        );
    }
    if m.attachments@.len() > 0 {
        assert(lines.last() == attachment_line(head, m.attachments@.last()));
        lemma_join_lines_ends(lines);
    }
    if m.text is Some && text_lines(m.text->0@).len() > 0 {
        let f = head + text_lines(m.text->0@)[0];
        assert(lines[0] == f);
        lemma_join_lines_starts(lines);
    }
    if m.attachments@.len() == 0 && (m.text is None || text_lines(m.text->0@).len() == 0) {
        assert(lines.len() == 0);
    }
}

proof fn lemma_join_lines_starts(ls: Seq<Seq<char>>)
    requires
        ls.len() > 0,
    ensures
        join_lines(ls).len() >= ls[0].len(),
        join_lines(ls).take(ls[0].len() as int) == ls[0],
    decreases ls.len(),
{
    if ls.len() == 1 {
        assert(join_lines(ls).take(ls[0].len() as int) =~= ls[0]);
    } else {
        lemma_join_lines_starts(ls.drop_last());
        let pre = join_lines(ls.drop_last());
        assert(ls.drop_last()[0] == ls[0]);
        assert(join_lines(ls) == pre + seq!['\n'] + ls.last());
        assert(join_lines(ls).take(ls[0].len() as int) =~= pre.take(ls[0].len() as int));
    }
}

/// Renders a message for the timeline; `hhmm` is its local time.
pub fn timeline_line(m: &Message, hhmm: &str) -> (s: String)
    requires
        timeline_renderable(m),
    ensures
        s@ == timeline_spec(*m, hhmm@),
{
    let sender: Vec<char> = match &m.sender_key {
        Some(k) => chars_of(k.as_str()),
        None => {
            let sid = short_id_of(m.sender_id.as_str());
            chars_of(sid.as_str())
        },
    };
    let ghost head = line_head(hhmm@, sender@);
    assert(sender@ == sender_shown(*m));
    let mut lines: Vec<String> = Vec::new();
    match &m.text {
        Some(t) => {
            let tl = text_lines_of(t.as_str());
            let mut i: usize = 0;
            while i < tl.len()
                invariant
                    i <= tl@.len(),
                    tl@.len() == text_lines(t@).len(),
                    forall|k: int| 0 <= k < tl@.len() ==> (#[trigger] tl@[k])@ == text_lines(t@)[k],
                    lines@.len() == i,
                    head == line_head(hhmm@, sender@),
                    m.text == Some(*t),
                    forall|k: int|
                        0 <= k < i ==> (#[trigger] lines@[k])@ == text_part(head, m.text)[k],
                decreases tl.len() - i,
            {
                let mut l = String::new();
                if i == 0 {
                    push_line_head(&mut l, hhmm, &sender);
                } else {
                    push_str(&mut l, "      ");
                    let empty: Vec<char> = Vec::new();
                    push_padded12(&mut l, &empty);
                    push_str(&mut l, " | ");
                }
                push_chars(&mut l, &tl[i]);
                proof {
                    reveal_strlit("      ");
                    if i != 0 {
                        assert(l@ =~= cont_head() + text_lines(t@)[i as int]);
                    } else {
                        assert(l@ =~= head + text_lines(t@)[i as int]);
                    }
                    assert(l@ == text_part(head, m.text)[i as int]);
                }
                lines.push(l);
                i = i + 1;
            }
        },
        None => {},
    }
    let ghost ntext = lines@.len();
    assert(ntext == text_part(head, m.text).len());
    let mut j: usize = 0;
    while j < m.attachments.len()
        invariant
            j <= m.attachments@.len(),
            timeline_renderable(m),
            lines@.len() == ntext + j,
            ntext == text_part(head, m.text).len(),
            head == line_head(hhmm@, sender@),
            forall|k: int|
                0 <= k < ntext ==> (#[trigger] lines@[k])@ == text_part(head, m.text)[k],
            forall|k: int|
                0 <= k < j ==> (#[trigger] lines@[ntext + k])@ == attachment_line(
                    head,
                    m.attachments@[k],
                ),
        decreases m.attachments.len() - j,
    {
        let a = &m.attachments[j];
        let mut l = String::new();
        push_line_head(&mut l, hhmm, &sender);
        push_str(&mut l, "[image ");
        push_str(&mut l, a.file_name.as_str());
        push_str(&mut l, " sha256:");
        assert(has_short_id(m.attachments@[j as int].sha256@));
        let sh = short_id_of(a.sha256.as_str());
        push_str(&mut l, sh.as_str());
        push_str(&mut l, "… id=");
        push_str(&mut l, a.id.as_str());
        push_str(&mut l, "]");
        assert(l@ =~= attachment_line(head, m.attachments@[j as int]));
        lines.push(l);
        j = j + 1;
    }
    let ghost all = text_part(head, m.text) + Seq::new(
        m.attachments@.len(),
        |i: int| attachment_line(head, m.attachments@[i]),
    );
    assert forall|k: int| 0 <= k < lines@.len() implies (#[trigger] lines@[k])@ == all[k] by {
        if k >= ntext {
            assert(lines@[ntext + (k - ntext)] == lines@[k]);
        }
    }
    let mut out = String::new();
    if lines.len() == 0 {
        push_line_head(&mut out, hhmm, &sender);
        push_str(&mut out, "(empty)");
        assert(out@ =~= timeline_spec(*m, hhmm@));
        return out;
    }
    let mut k: usize = 0;
    while k < lines.len()
        invariant
            k <= lines@.len(),
            lines@.len() == all.len(),
            forall|q: int| 0 <= q < lines@.len() ==> (#[trigger] lines@[q])@ == all[q],
            out@ == join_lines(all.take(k as int)),
        decreases lines.len() - k,
    {
        if k > 0 {
            push_char(&mut out, '\n');
        }
        push_str(&mut out, lines[k].as_str());
        proof {
            let t = all.take((k + 1) as int);
            assert(t.drop_last() =~= all.take(k as int));
            if k == 0 {
                assert(out@ =~= join_lines(t));
            } else {
                assert(out@ =~= join_lines(t));
            }
        }
        k = k + 1;
    }
    assert(all.take(k as int) =~= all);
    out
}

// ---------- conversation rows ----------

/// The member shown in a listing: its key, or the first 8 bytes of its id.
pub open spec fn member_shown(m: ParticipantInfo) -> Seq<char> {
    match m.agent_key {
        Some(k) => k@,
        None => short_id(m.agent_id@),
    }
}

/// Member names joined by `, `.
pub open spec fn join_names(ns: Seq<Seq<char>>) -> Seq<char>
    decreases ns.len(),
{
    if ns.len() == 0 {
        Seq::<char>::empty()
    } else if ns.len() == 1 {
        ns[0]
    } else {
        join_names(ns.drop_last()) + ", "@ + ns.last()
    }
}

pub open spec fn members_shown(c: ConversationSummary) -> Seq<char> {
    join_names(Seq::new(c.members@.len(), |i: int| member_shown(c.members@[i])))
}

/// What `member_names` needs: the member id slices it shows are defined.
pub open spec fn members_renderable(c: &ConversationSummary) -> bool {
    forall|i: int|
        0 <= i < c.members@.len() ==> ((#[trigger] c.members@[i]).agent_key is None
            ==> has_short_id(c.members@[i].agent_id@))
}

/// What `conv_row` needs: the id slices it shows are defined.
pub open spec fn conv_row_renderable(c: &ConversationSummary) -> bool {
    &&& has_short_id(c.id@)
    &&& members_renderable(c)
}

/// The kind column: `dm`, or `group: <title>`.
pub open spec fn kind_shown(c: ConversationSummary) -> Seq<char> {
    match c.kind {
        ConversationKind::Dm => "dm"@,
        ConversationKind::Group => "group: "@ + match c.title {
            Some(t) => t@,
            None => Seq::<char>::empty(),
        },
    }
}

/// Whether `member_names` can render the conversation's members.
pub fn members_ready(c: &ConversationSummary) -> (b: bool)
    ensures
        b == members_renderable(c),
{
    let mut i: usize = 0;
    while i < c.members.len()
        invariant
            i <= c.members@.len(),
            forall|k: int|
                0 <= k < i ==> ((#[trigger] c.members@[k]).agent_key is None ==> has_short_id(
                    c.members@[k].agent_id@,
                )),
        decreases c.members.len() - i,
    {
        if c.members[i].agent_key.is_none() && !short_id_ok(c.members[i].agent_id.as_str()) {
            return false;
        }
        i = i + 1;
    }
    true
}

/// Whether `conv_row` can render the conversation.
pub fn conv_row_ready(c: &ConversationSummary) -> (b: bool)
    ensures
        b == conv_row_renderable(c),
{
    short_id_ok(c.id.as_str()) && members_ready(c)
}

/// The names of a conversation's members, joined by `, `.
pub fn member_names(c: &ConversationSummary) -> (s: String)
    requires
        members_renderable(c),
    ensures
        s@ == members_shown(*c),
{
    let ghost names = Seq::new(c.members@.len(), |i: int| member_shown(c.members@[i]));
    let mut s = String::new();
    let mut i: usize = 0;
    while i < c.members.len()
        invariant
            i <= c.members@.len(),
            members_renderable(c),
            names == Seq::new(c.members@.len(), |q: int| member_shown(c.members@[q])),
            s@ == join_names(names.take(i as int)),
        decreases c.members.len() - i,
    {
        let m = &c.members[i];
        if i > 0 {
            push_str(&mut s, ", ");
        }
        match &m.agent_key {
            Some(k) => push_str(&mut s, k.as_str()),
            None => {
                assert(has_short_id(c.members@[i as int].agent_id@));
                let sid = short_id_of(m.agent_id.as_str());
                push_str(&mut s, sid.as_str());
            },
        }
        proof {
            let t = names.take((i + 1) as int);
            assert(t.drop_last() =~= names.take(i as int));
            assert(t.last() == member_shown(c.members@[i as int]));
            assert(s@ =~= join_names(t));
        }
        i = i + 1;
    }
    assert(names.take(i as int) =~= names);
    s
}

/// A row of the conversation table: short id, kind, members, and how long
/// ago the last message was (`elapsed_secs`).
pub fn conv_row(c: &ConversationSummary, elapsed_secs: i64) -> (row: Vec<String>)
    requires
        conv_row_renderable(c),
    ensures
        row@.len() == 4,
        row@[0]@ == short_id(c.id@),
        row@[1]@ == kind_shown(*c),
        row@[2]@ == members_shown(*c),
        row@[3]@ == rel_time_spec(elapsed_secs as int),
{
    let id = short_id_of(c.id.as_str());
    let mut kind = String::new();
    match c.kind {
        ConversationKind::Dm => push_str(&mut kind, "dm"),
        ConversationKind::Group => {
            push_str(&mut kind, "group: ");
            match &c.title {
                Some(t) => push_str(&mut kind, t.as_str()),
                None => {},
            }
        },
    }
    assert(kind@ =~= kind_shown(*c));
    let members = member_names(c);
    let active = rel_time(elapsed_secs);
    let mut row: Vec<String> = Vec::new();
    row.push(id);
    row.push(kind);
    row.push(members);
    row.push(active);
    row
}

// ---------- other tables ----------

/// A row of the agent table: short id, key (`-` when hidden), short
/// account id, and how long ago the agent was last seen (`seen_secs`).
pub fn agent_row(a: &AgentInfo, seen_secs: i64) -> (row: Vec<String>)
    requires
        has_short_id(a.id@),
        has_short_id(a.account_id@),
    ensures
        row@.len() == 4,
        row@[0]@ == short_id(a.id@),
        row@[1]@ == match a.agent_key {
            Some(k) => k@,
            None => "-"@,
        },
        row@[2]@ == short_id(a.account_id@),
        row@[3]@ == rel_time_spec(seen_secs as int),
{
    let id = short_id_of(a.id.as_str());
    let key = match &a.agent_key {
        Some(k) => k.clone(),
        None => to_owned_string("-"),
    };
    let account = short_id_of(a.account_id.as_str());
    let seen = rel_time(seen_secs);
    let mut row: Vec<String> = Vec::new();
    row.push(id);
    row.push(key);
    row.push(account);
    row.push(seen);
    row
}

/// A row of the member table: the name shown, the short agent id, and
/// `creator` for the agent that created the conversation.
pub fn member_row(m: &ParticipantInfo, created_by: &str) -> (row: Vec<String>)
    requires
        has_short_id(m.agent_id@),
    ensures
        row@.len() == 3,
        row@[0]@ == member_shown(*m),
        row@[1]@ == short_id(m.agent_id@),
        row@[2]@ == if m.agent_id@ == created_by@ {
            "creator"@
        } else {
            Seq::<char>::empty()
        },
{
    let sid = short_id_of(m.agent_id.as_str());
    let name = match &m.agent_key {
        Some(k) => k.clone(),
        None => short_id_of(m.agent_id.as_str()),
    };
    let role = if str_eq(m.agent_id.as_str(), created_by) {
        to_owned_string("creator")
    } else {
        String::new()
    };
    let mut row: Vec<String> = Vec::new();
    row.push(name);
    row.push(sid);
    row.push(role);
    row
}

/// A row of the token table: short id (marked ` *` for the token in use),
/// label (`-` when empty), age, last use (`never`), and the first 40
/// characters of the last user agent (`-`). `created_secs` and
/// `used_secs` are the ages of the two times.
pub fn token_row(t: &TokenInfo, created_secs: i64, used_secs: Option<i64>) -> (row: Vec<String>)
    requires
        has_short_id(t.id@),
    ensures
        row@.len() == 5,
        row@[0]@ == short_id(t.id@) + if t.current {
            " *"@
        } else {
            Seq::<char>::empty()
        },
        row@[1]@ == if t.label@.len() == 0 {
            "-"@
        } else {
            t.label@
        },
        row@[2]@ == rel_time_spec(created_secs as int),
        row@[3]@ == match used_secs {
            Some(s) => rel_time_spec(s as int),
            None => "never"@,
        },
        row@[4]@ == match t.last_user_agent {
            Some(u) => first_chars(u@, 40),
            None => "-"@,
        },
{
    let mut id = short_id_of(t.id.as_str());
    if t.current {
        push_str(&mut id, " *");
    }
    let label = if t.label.as_str().as_bytes().len() == 0 {
        to_owned_string("-")
    } else {
        t.label.clone()
    };
    let created = rel_time(created_secs);
    let used = match used_secs {
        Some(s) => rel_time(s),
        None => to_owned_string("never"),
    };
    let ua = match &t.last_user_agent {
        Some(u) => take_chars(u.as_str(), 40),
        None => to_owned_string("-"),
    };
    let mut row: Vec<String> = Vec::new();
    row.push(id);
    row.push(label);
    row.push(created);
    row.push(used);
    row.push(ua);
    row
}

// ---------- tables ----------

/// The box-drawn table that `comfy-table` renders (preset `UTF8_FULL`) for
/// a header row and body rows.
pub uninterp spec fn rendered_table(headers: Seq<Seq<char>>, rows: Seq<Seq<Seq<char>>>) -> Seq<
    char,
>;

/// `comfy_table::Table` with the `UTF8_FULL` preset, the given header and
/// rows, rendered to text. No cell is styled and the content arrangement
/// stays disabled, so the text depends on the cells alone; the contract
/// names it without restating the layout.
#[verifier::external_body]
pub fn table(headers: &Vec<String>, rows: &Vec<Vec<String>>) -> (s: String)
    ensures
        s@ == rendered_table(headers.deep_view(), rows.deep_view()),
{
    let mut t = comfy_table::Table::new();
    t.load_preset(comfy_table::presets::UTF8_FULL);
    t.set_header(headers.clone());
    t.add_rows(rows.clone());
    t.to_string()
}

fn header_row(a: &str, b: &str, c: &str, d: Option<&str>, e: Option<&str>) -> (h: Vec<String>)
    ensures
        h.deep_view() == seq![a@, b@, c@] + match d {
            Some(x) => seq![x@],
            None => Seq::<Seq<char>>::empty(),
        } + match e {
            Some(x) => seq![x@],
            None => Seq::<Seq<char>>::empty(),
        },
{
    let mut h: Vec<String> = Vec::new();
    h.push(to_owned_string(a));
    h.push(to_owned_string(b));
    h.push(to_owned_string(c));
    match d {
        Some(x) => h.push(to_owned_string(x)),
        None => {},
    }
    match e {
        Some(x) => h.push(to_owned_string(x)),
        None => {},
    }
    assert(h.deep_view() =~= seq![a@, b@, c@] + match d {
        Some(x) => seq![x@],
        None => Seq::<Seq<char>>::empty(),
    } + match e {
        Some(x) => seq![x@],
        None => Seq::<Seq<char>>::empty(),
    });
    h
}

pub open spec fn conv_row_spec(c: ConversationSummary, age: int) -> Seq<Seq<char>> {
    seq![short_id(c.id@), kind_shown(c), members_shown(c), rel_time_spec(age)]
}

/// The conversation table of `conversations`; `ages[i]` is how many
/// seconds ago conversation `i` was last active.
pub fn conversation_table(items: &Vec<ConversationSummary>, ages: &Vec<i64>) -> (s: String)
    requires
        items@.len() == ages@.len(),
        forall|i: int| 0 <= i < items@.len() ==> conv_row_renderable(&#[trigger] items@[i]),
    ensures
        s@ == rendered_table(
            seq!["id"@, "kind/title"@, "members"@, "active"@],
            Seq::new(items@.len(), |i: int| conv_row_spec(items@[i], ages@[i] as int)),
        ),
{
    let headers = header_row("id", "kind/title", "members", Some("active"), None);
    assert(headers.deep_view() =~= seq!["id"@, "kind/title"@, "members"@, "active"@]);
    let mut rows: Vec<Vec<String>> = Vec::new();
    let mut i: usize = 0;
    while i < items.len()
        invariant
            i <= items@.len(),
            items@.len() == ages@.len(),
            forall|k: int| 0 <= k < items@.len() ==> conv_row_renderable(&#[trigger] items@[k]),
            rows@.len() == i,
            forall|k: int|
                0 <= k < i ==> (#[trigger] rows@[k]).deep_view() == conv_row_spec(
                    items@[k],
                    ages@[k] as int,
                ),
        decreases items.len() - i,
    {
        let r = conv_row(&items[i], ages[i]);
        assert(r.deep_view() =~= conv_row_spec(items@[i as int], ages@[i as int] as int));
        rows.push(r);
        i = i + 1;
    }
    assert(rows.deep_view() =~= Seq::new(
        items@.len(),
        |i: int| conv_row_spec(items@[i], ages@[i] as int),
    ));
    table(&headers, &rows)
}

pub open spec fn agent_row_spec(a: AgentInfo, age: int) -> Seq<Seq<char>> {
    seq![
        short_id(a.id@),
        match a.agent_key {
            Some(k) => k@,
            None => "-"@,
        },
        short_id(a.account_id@),
        rel_time_spec(age),
    ]
}

/// The agent table of `agents`; `ages[i]` is how many seconds ago agent
/// `i` was last seen.
pub fn agent_table(items: &Vec<AgentInfo>, ages: &Vec<i64>) -> (s: String)
    requires
        items@.len() == ages@.len(),
        forall|i: int|
            0 <= i < items@.len() ==> has_short_id((#[trigger] items@[i]).id@) && has_short_id(
                items@[i].account_id@,
            ),
    ensures
        s@ == rendered_table(
            seq!["id"@, "key"@, "account"@, "last seen"@],
            Seq::new(items@.len(), |i: int| agent_row_spec(items@[i], ages@[i] as int)),
        ),
{
    let headers = header_row("id", "key", "account", Some("last seen"), None);
    assert(headers.deep_view() =~= seq!["id"@, "key"@, "account"@, "last seen"@]);
    let mut rows: Vec<Vec<String>> = Vec::new();
    let mut i: usize = 0;
    while i < items.len()
        invariant
            i <= items@.len(),
            items@.len() == ages@.len(),
            forall|k: int|
                0 <= k < items@.len() ==> has_short_id((#[trigger] items@[k]).id@) && has_short_id(
                    items@[k].account_id@,
                ),
            rows@.len() == i,
            forall|k: int|
                0 <= k < i ==> (#[trigger] rows@[k]).deep_view() == agent_row_spec(
                    items@[k],
                    ages@[k] as int,
                ),
        decreases items.len() - i,
    {
        assert(has_short_id(items@[i as int].id@));
        let r = agent_row(&items[i], ages[i]);
        assert(r.deep_view() =~= agent_row_spec(items@[i as int], ages@[i as int] as int));
        rows.push(r);
        i = i + 1;
    }
    assert(rows.deep_view() =~= Seq::new(
        items@.len(),
        |i: int| agent_row_spec(items@[i], ages@[i] as int),
    ));
    table(&headers, &rows)
}

pub open spec fn member_row_spec(m: ParticipantInfo, created_by: Seq<char>) -> Seq<Seq<char>> {
    seq![
        member_shown(m),
        short_id(m.agent_id@),
        if m.agent_id@ == created_by {
            "creator"@
        } else {
            Seq::<char>::empty()
        },
    ]
}

/// The member table of `members list`.
pub fn member_table(c: &ConversationSummary) -> (s: String)
    requires
        forall|i: int| 0 <= i < c.members@.len() ==> has_short_id((#[trigger] c.members@[i]).agent_id@),
    ensures
        s@ == rendered_table(
            seq!["key"@, "agent id"@, "role"@],
            Seq::new(c.members@.len(), |i: int| member_row_spec(c.members@[i], c.created_by@)),
        ),
{
    let headers = header_row("key", "agent id", "role", None, None);
    let mut rows: Vec<Vec<String>> = Vec::new();
    let mut i: usize = 0;
    while i < c.members.len()
        invariant
            i <= c.members@.len(),
            forall|k: int|
                0 <= k < c.members@.len() ==> has_short_id((#[trigger] c.members@[k]).agent_id@),
            rows@.len() == i,
            forall|k: int|
                0 <= k < i ==> (#[trigger] rows@[k]).deep_view() == member_row_spec(
                    c.members@[k],
                    c.created_by@,
                ),
        decreases c.members.len() - i,
    {
        let r = member_row(&c.members[i], c.created_by.as_str());
        assert(r.deep_view() =~= member_row_spec(c.members@[i as int], c.created_by@));
        rows.push(r);
        i = i + 1;
    }
    assert(rows.deep_view() =~= Seq::new(
        c.members@.len(),
        |i: int| member_row_spec(c.members@[i], c.created_by@),
    ));
    table(&headers, &rows)
}

pub open spec fn token_row_spec(t: TokenInfo, created: int, used: Option<i64>) -> Seq<Seq<char>> {
    seq![
        short_id(t.id@) + if t.current {
            " *"@
        } else {
            Seq::<char>::empty()
        },
        if t.label@.len() == 0 {
            "-"@
        } else {
            t.label@
        },
        rel_time_spec(created),
        match used {
            Some(s) => rel_time_spec(s as int),
            None => "never"@,
        },
        match t.last_user_agent {
            Some(u) => first_chars(u@, 40),
            None => "-"@,
        },
    ]
}

/// The token table of `tokens list`; `created[i]` and `used[i]` are the
/// ages in seconds of token `i`'s creation and last use.
pub fn token_table(items: &Vec<TokenInfo>, created: &Vec<i64>, used: &Vec<Option<i64>>) -> (s:
    String)
    requires
        items@.len() == created@.len(),
        items@.len() == used@.len(),
        forall|i: int| 0 <= i < items@.len() ==> has_short_id((#[trigger] items@[i]).id@),
    ensures
        s@ == rendered_table(
            seq!["id"@, "label"@, "created"@, "last used"@, "user agent"@],
            Seq::new(
                items@.len(),
                |i: int| token_row_spec(items@[i], created@[i] as int, used@[i]),
            ),
        ),
{
    let headers = header_row("id", "label", "created", Some("last used"), Some("user agent"));
    assert(headers.deep_view() =~= seq!["id"@, "label"@, "created"@, "last used"@, "user agent"@]);
    let mut rows: Vec<Vec<String>> = Vec::new();
    let mut i: usize = 0;
    while i < items.len()
        invariant
            i <= items@.len(),
            items@.len() == created@.len(),
            items@.len() == used@.len(),
            forall|k: int| 0 <= k < items@.len() ==> has_short_id((#[trigger] items@[k]).id@),
            rows@.len() == i,
            forall|k: int|
                0 <= k < i ==> (#[trigger] rows@[k]).deep_view() == token_row_spec(
                    items@[k],
                    created@[k] as int,
                    used@[k],
                ),
        decreases items.len() - i,
    {
        let r = token_row(&items[i], created[i], used[i]);
        assert(r.deep_view() =~= token_row_spec(items@[i as int], created@[i as int] as int, used@[i as int]));
        rows.push(r);
        i = i + 1;
    }
    assert(rows.deep_view() =~= Seq::new(
        items@.len(),
        |i: int| token_row_spec(items@[i], created@[i] as int, used@[i]),
    ));
    table(&headers, &rows)
}

pub open spec fn alias_row_spec(e: (String, String)) -> Seq<Seq<char>> {
    seq![e.0@, short_id(e.1@)]
}

/// The alias table of `alias list`, in the aliases' order (increasing by
/// name).
pub fn alias_table(a: &Aliases) -> (s: String)
    requires
        forall|i: int|
            0 <= i < a.conversations@.len() ==> has_short_id((#[trigger] a.conversations@[i]).1@),
    ensures
        s@ == rendered_table(
            seq!["alias"@, "conversation"@],
            Seq::new(a.conversations@.len(), |i: int| alias_row_spec(a.conversations@[i])),
        ),
{
    let mut headers: Vec<String> = Vec::new();
    headers.push(to_owned_string("alias"));
    headers.push(to_owned_string("conversation"));
    assert(headers.deep_view() =~= seq!["alias"@, "conversation"@]);
    let mut rows: Vec<Vec<String>> = Vec::new();
    let mut i: usize = 0;
    while i < a.conversations.len()
        invariant
            i <= a.conversations@.len(),
            forall|k: int|
                0 <= k < a.conversations@.len() ==> has_short_id(
                    (#[trigger] a.conversations@[k]).1@,
                ),
            rows@.len() == i,
            forall|k: int|
                0 <= k < i ==> (#[trigger] rows@[k]).deep_view() == alias_row_spec(
                    a.conversations@[k],
                ),
        decreases a.conversations.len() - i,
    {
        let e = &a.conversations[i];
        let mut r: Vec<String> = Vec::new();
        r.push(e.0.clone());
        assert(has_short_id(a.conversations@[i as int].1@));
        r.push(short_id_of(e.1.as_str()));
        assert(r.deep_view() =~= alias_row_spec(a.conversations@[i as int]));
        rows.push(r);
        i = i + 1;
    }
    assert(rows.deep_view() =~= Seq::new(
        a.conversations@.len(),
        |i: int| alias_row_spec(a.conversations@[i]),
    ));
    table(&headers, &rows)
}

} // verus!
