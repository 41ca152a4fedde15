//! Terminal renderer: a page as text for a reader.
//!
//! - word wrap (greedy, no hyphenation; over-long words overflow)
//! - numbered link references with an index at the end
//! - nested collections as indented bullets
//! - images and apps as placeholders; an app lists what it requires

use crate::content::{
    capabilities_view, component_view, edges, lemma_list_view, list_nodes, list_view, nodes_of,
    props_view, texts, Capability, CapabilityView, Component, ComponentView, LinkTarget, Page,
    PageView, Props, ReferenceView, TargetView,
};
use crate::text::{
    byte_len, chars_of, dec_chars, decimal, is_white, is_white_char, trim_end, trimmed_end,
    utf8_len,
};
use vstd::prelude::*;
use vstd::string::*;

verus! {

/// Width of a terminal line.
pub const WRAP_WIDTH: usize = 80;

/// Number of leading characters that are not white space.
pub open spec fn word_len(s: Seq<char>) -> nat
    decreases s.len(),
{
    if s.len() == 0 || is_white(s[0]) {
        0
    } else {
        1 + word_len(s.skip(1))
    }
}

/// The words of a text: the longest stretches without white space.
pub open spec fn words(s: Seq<char>) -> Seq<Seq<char>>
    decreases s.len(),
    via words_decreases
{
    if s.len() == 0 {
        Seq::empty()
    } else if is_white(s[0]) {
        words(s.skip(1))
    } else {
        seq![s.take(word_len(s) as int)] + words(s.skip(word_len(s) as int))
    }
}

#[via_fn]
proof fn words_decreases(s: Seq<char>) {
    lemma_word_len(s);
}

pub proof fn lemma_word_len(s: Seq<char>)
    ensures
        word_len(s) <= s.len(),
        s.len() > 0 && !is_white(s[0]) ==> word_len(s) > 0,
        forall|i: int| 0 <= i < word_len(s) ==> !is_white(#[trigger] s[i]),
        word_len(s) < s.len() ==> is_white(s[word_len(s) as int]),
    decreases s.len(),
{
    if s.len() > 0 && !is_white(s[0]) {
        lemma_word_len(s.skip(1));
        assert forall|i: int| 0 <= i < word_len(s) implies !is_white(#[trigger] s[i]) by {
            if i > 0 {
                assert(s.skip(1)[i - 1] == s[i]);
            }
        }
    }
}

/// Words appended to a started line: a word goes on the line where it fits,
/// behind a space, else on a line of its own behind `cont`.
pub open spec fn filled(
    buf: Seq<char>,
    line: nat,
    ws: Seq<Seq<char>>,
    cont: Seq<char>,
    width: nat,
) -> Seq<char>
    decreases ws.len(),
{
    if ws.len() == 0 {
        buf
    } else if line + 1 + ws[0].len() <= width {
        filled(buf.push(' ') + ws[0], line + 1 + ws[0].len(), ws.skip(1), cont, width)
    } else {
        filled(
            buf.push('\n') + cont + ws[0],
            byte_len(cont) + ws[0].len(),
            ws.skip(1),
            cont,
            width,
        )
    }
}

/// The larger of two numbers.
pub open spec fn larger(a: nat, b: nat) -> nat {
    if a >= b {
        a
    } else {
        b
    }
}

/// The width in use: at least ten columns behind either prefix.
pub open spec fn used_width(first: Seq<char>, cont: Seq<char>, width: nat) -> nat {
    larger(larger(width, byte_len(first) + 10), byte_len(cont) + 10)
}

/// A paragraph: `first` before the first line, `cont` before the others, one
/// newline at the end. Without words a dangling prefix is trimmed.
pub open spec fn para(
    text: Seq<char>,
    first: Seq<char>,
    cont: Seq<char>,
    width: nat,
) -> Seq<char> {
    let ws = words(text);
    if ws.len() == 0 {
        trim_end(first).push('\n')
    } else {
        filled(
            first + ws[0],
            byte_len(first) + ws[0].len(),
            ws.skip(1),
            cont,
            used_width(first, cont, width),
        ).push('\n')
    }
}

/// The words of a text.
fn split_words(text: &str) -> (out: Vec<String>)
    ensures
        texts(out@) == words(text@),
{
    let chars = chars_of(text);
    let mut out: Vec<String> = Vec::new();
    let mut i: usize = 0;
    assert(chars@.skip(0) =~= chars@);
    assert(texts(out@) + words(chars@) =~= words(chars@));
    while i < chars.len()
        invariant
            i <= chars@.len(),
            chars@ == text@,
            texts(out@) + words(chars@.skip(i as int)) == words(text@),
        decreases chars@.len() - i,
    {
        let ghost rest = chars@.skip(i as int);
        if is_white_char(chars[i]) {
            assert(rest.skip(1) =~= chars@.skip(i + 1));
            i = i + 1;
        } else {
            let mut word = String::new();
            let start = i;
            proof {
                lemma_word_len(rest);
                assert(rest.take(0) =~= Seq::empty());
            }
            while i < chars.len() && !is_white_char(chars[i])
                invariant
                    start <= i <= chars@.len(),
                    rest == chars@.skip(start as int),
                    i - start <= word_len(rest) <= rest.len(),
                    forall|j: int| 0 <= j < word_len(rest) ==> !is_white(#[trigger] rest[j]),
                    word_len(rest) < rest.len() ==> is_white(rest[word_len(rest) as int]),
                    word@ == rest.take(i - start),
                decreases chars@.len() - i,
            {
                assert(chars@[i as int] == rest[i - start]);
                assert(rest.take(i - start).push(rest[i - start]) =~= rest.take(i - start + 1));
                word.push(chars[i]);
                i = i + 1;
            }
            proof {
                if i < chars@.len() {
                    assert(chars@[i as int] == rest[i - start]);
                }
                assert(i - start == word_len(rest));
                assert(rest.skip(i - start) =~= chars@.skip(i as int));
                let before = texts(out@);
                assert(texts(out@.push(word)) =~= before.push(word@));
                assert(before + (seq![word@] + words(chars@.skip(i as int))) =~= before.push(word@)
                    + words(chars@.skip(i as int)));
            }
            out.push(word);
        }
    }
    assert(texts(out@) + words(chars@.skip(i as int)) =~= texts(out@));
    out
}

/// A paragraph, word-wrapped.
pub fn wrap_para(text: &str, first: &str, cont: &str, width: usize) -> (out: String)
    ensures
        out@ == para(text@, first@, cont@, width as nat),
{
    let first_len: u128 = utf8_len(first) as u128;
    let cont_len: u128 = utf8_len(cont) as u128;
    let mut limit: u128 = width as u128;
    if limit < first_len + 10 {
        limit = first_len + 10;
    }
    if limit < cont_len + 10 {
        limit = cont_len + 10;
    }
    let ws = split_words(text);
    let ghost all = words(text@);
    if ws.len() == 0 {
        assert(all.len() == 0);
        let mut out = trimmed_end(first);
        out.push('\n');
        return out;
    }
    assert(all[0] == ws@[0]@);
    let mut buf = first.to_owned();
    buf.append(ws[0].as_str());
    let mut line: u128 = first_len + ws[0].as_str().unicode_len() as u128;
    let mut i: usize = 1;
    while i < ws.len()
        invariant
            1 <= i <= ws@.len(),
            texts(ws@) == all,
            cont_len == byte_len(cont@),
            cont_len <= usize::MAX,
            limit <= usize::MAX + 10,
            line <= 3 * usize::MAX,
            limit == used_width(first@, cont@, width as nat),
            filled(buf@, line as nat, all.skip(i as int), cont@, limit as nat) == filled(
                first@ + all[0],
                byte_len(first@) + all[0].len(),
                all.skip(1),
                cont@,
                limit as nat,
            ),
        decreases ws@.len() - i,
    {
        let w: u128 = ws[i].as_str().unicode_len() as u128;
        proof {
            assert(all.skip(i as int)[0] == ws@[i as int]@);
            assert(all.skip(i as int).skip(1) =~= all.skip(i + 1));
        }
        if line + 1 + w <= limit {
            buf.push(' ');
            buf.append(ws[i].as_str());
            line = line + 1 + w;
        } else {
            buf.push('\n');
            buf.append(cont);
            buf.append(ws[i].as_str());
            line = cont_len + w;
        }
        i = i + 1;
    }
    assert(all.skip(i as int).len() == 0);
    buf.push('\n');
    buf
}

/// Where a link leads, as text.
pub open spec fn target_text(t: TargetView) -> Seq<char> {
    match t {
        TargetView::Page { site, path } => site.push('/') + path,
        TargetView::External { hint } => "external: "@ + hint,
        TargetView::Action { action_id } => "action: "@ + action_id,
    }
}

/// Texts with a separator between.
pub open spec fn joined(parts: Seq<Seq<char>>, sep: Seq<char>) -> Seq<char>
    decreases parts.len(),
{
    if parts.len() == 0 {
        Seq::empty()
    } else if parts.len() == 1 {
        parts[0]
    } else {
        joined(parts.drop_last(), sep) + sep + parts.last()
    }
}

/// A capability, as text.
pub open spec fn capability_text(c: CapabilityView) -> Seq<char> {
    match c {
        CapabilityView::Storage { max_kb } => "storage("@ + dec_chars(max_kb as nat) + "KB)"@,
        CapabilityView::Network { hosts } => if hosts.len() == 0 {
            "network(none)"@
        } else {
            "network("@ + joined(hosts, ","@) + ")"@
        },
        CapabilityView::Notify => "notify"@,
        CapabilityView::Audio => "audio"@,
        CapabilityView::Camera => "camera"@,
        CapabilityView::Microphone => "microphone"@,
    }
}

/// What a page requires, as text.
pub open spec fn requirements(caps: Seq<CapabilityView>) -> Seq<char> {
    if caps.len() == 0 {
        "none"@
    } else {
        joined(Seq::new(caps.len(), |i: int| capability_text(caps[i])), ", "@)
    }
}

/// `n` hash marks.
pub open spec fn hashes(n: nat) -> Seq<char> {
    Seq::new(n, |i: int| '#')
}

/// A heading level within one to six.
pub open spec fn clamped_level(level: u8) -> nat {
    if level < 1 {
        1
    } else if level > 6 {
        6
    } else {
        level as nat
    }
}

/// The targets of the links of a component, in document order.
pub open spec fn links_of(c: ComponentView) -> Seq<Seq<char>>
    decreases c,
{
    match c {
        ComponentView::Link { target, .. } => seq![target_text(target)],
        ComponentView::Collection { items } => list_links(items),
        _ => Seq::empty(),
    }
}

/// The targets of the links of components that stand side by side.
pub open spec fn list_links(items: Seq<ComponentView>) -> Seq<Seq<char>>
    decreases items,
{
    if items.len() == 0 {
        Seq::empty()
    } else {
        list_links(items.drop_last()) + links_of(items.last())
    }
}

/// The prefix of the first line.
pub open spec fn first_prefix(pad: Seq<char>, bulleted: bool) -> Seq<char> {
    if bulleted {
        pad + "- "@
    } else {
        pad
    }
}

/// The prefix of the lines after the first.
pub open spec fn next_prefix(pad: Seq<char>, bulleted: bool) -> Seq<char> {
    if bulleted {
        pad + "  "@
    } else {
        pad
    }
}

/// A paragraph of a component; a blank line follows unless it is a bullet.
pub open spec fn block(text: Seq<char>, pad: Seq<char>, bulleted: bool) -> Seq<char> {
    para(text, first_prefix(pad, bulleted), next_prefix(pad, bulleted), WRAP_WIDTH as nat) + gap(
        bulleted,
    )
}

/// The blank line behind what is no bullet.
pub open spec fn gap(bulleted: bool) -> Seq<char> {
    if bulleted {
        Seq::empty()
    } else {
        seq!['\n']
    }
}

/// The placeholder of an app: that it is not executed, what the page
/// requires, and its properties.
pub open spec fn app_block(
    app_id: Seq<char>,
    props: Option<Seq<char>>,
    pad: Seq<char>,
    bulleted: bool,
    caps: Seq<CapabilityView>,
) -> Seq<char> {
    let sub = next_prefix(pad, bulleted) + "  "@;
    let title = para(
        "[app:"@ + app_id + "] (not executed)"@,
        first_prefix(pad, bulleted),
        next_prefix(pad, bulleted),
        WRAP_WIDTH as nat,
    );
    let needs = para("requires: "@ + requirements(caps), sub, sub, WRAP_WIDTH as nat);
    let shown = match props {
        Some(json) => para("props: "@ + json, sub, sub, WRAP_WIDTH as nat),
        None => Seq::empty(),
    };
    title + needs + shown + gap(bulleted)
}

/// A component as text, behind `pad`, where `before` links stand before it.
pub open spec fn component_text(
    c: ComponentView,
    pad: Seq<char>,
    top: bool,
    bulleted: bool,
    caps: Seq<CapabilityView>,
    before: nat,
) -> Seq<char>
    decreases c,
{
    match c {
        ComponentView::Text { text } => block(text, pad, bulleted),
        ComponentView::Heading { level, text } => block(
            hashes(clamped_level(level)).push(' ') + text,
            pad,
            bulleted,
        ),
        ComponentView::Image { content_id, alt } => block(
            "[image: "@ + alt + " ("@ + content_id + ")]"@,
            pad,
            bulleted,
        ),
        ComponentView::Link { label, .. } => block(
            label + " ["@ + dec_chars(before + 1) + "]"@,
            pad,
            bulleted,
        ),
        ComponentView::Collection { items } => items_text(items, pad + "  "@, caps, before) + (
        if top && !bulleted {
            seq!['\n']
        } else {
            Seq::empty()
        }),
        ComponentView::App { app_id, props } => app_block(app_id, props, pad, bulleted, caps),
    }
}

/// The items of a collection: bullets, but for nested collections.
pub open spec fn items_text(
    items: Seq<ComponentView>,
    pad: Seq<char>,
    caps: Seq<CapabilityView>,
    before: nat,
) -> Seq<char>
    decreases items,
{
    if items.len() == 0 {
        Seq::empty()
    } else {
        items_text(items.drop_last(), pad, caps, before) + component_text(
            items.last(),
            pad,
            false,
            !(items.last() is Collection),
            caps,
            before + list_links(items.drop_last()).len(),
        )
    }
}

/// The components of a page.
pub open spec fn body_text(items: Seq<ComponentView>, caps: Seq<CapabilityView>) -> Seq<char>
    decreases items.len(),
{
    if items.len() == 0 {
        Seq::empty()
    } else {
        body_text(items.drop_last(), caps) + component_text(
            items.last(),
            Seq::empty(),
            true,
            false,
            caps,
            list_links(items.drop_last()).len(),
        )
    }
}

/// The lines of the link index.
pub open spec fn index_lines(links: Seq<Seq<char>>) -> Seq<char>
    decreases links.len(),
{
    if links.len() == 0 {
        Seq::empty()
    } else {
        index_lines(links.drop_last()) + "  ["@ + dec_chars(links.len()) + "] "@ + links.last()
            + seq!['\n']
    }
}

/// The link index of a page with links.
pub open spec fn link_index(links: Seq<Seq<char>>) -> Seq<char> {
    if links.len() == 0 {
        Seq::empty()
    } else {
        "Links:\n"@ + index_lines(links)
    }
}

/// A page as text.
pub open spec fn page_text(p: PageView) -> Seq<char> {
    para(p.title, "# "@, "  "@, WRAP_WIDTH as nat) + "@"@ + p.site + " /"@ + p.path + "  rev:"@
        + dec_chars(p.revision as nat) + "\n\n"@ + body_text(p.components, p.capabilities)
        + link_index(list_links(p.components))
}

/// Where a link leads, as text.
fn fmt_target(t: &LinkTarget) -> (out: String)
    ensures
        out@ == target_text(t@),
{
    match t {
        LinkTarget::Page { site, path } => {
            let mut out = site.clone();
            out.push('/');
            out.append(path.as_str());
            out
        },
        LinkTarget::External { hint } => "external: ".to_owned().concat(hint.as_str()),
        LinkTarget::Action { action_id } => "action: ".to_owned().concat(action_id.as_str()),
    }
}

/// Texts with a separator between.
fn join(parts: &Vec<String>, sep: &str) -> (out: String)
    ensures
        out@ == joined(texts(parts@), sep@),
{
    let mut out = String::new();
    let mut i: usize = 0;
    let ghost all = texts(parts@);
    assert(all.take(0) =~= Seq::empty());
    while i < parts.len()
        invariant
            i <= parts@.len(),
            all == texts(parts@),
            out@ == joined(all.take(i as int), sep@),
        decreases parts@.len() - i,
    {
        proof {
            assert(all.take(i + 1).drop_last() =~= all.take(i as int));
            assert(all.take(i + 1).last() == parts@[i as int]@);
            assert(Seq::<char>::empty() + parts@[i as int]@ =~= parts@[i as int]@);
        }
        if i > 0 {
            out.append(sep);
        }
        out.append(parts[i].as_str());
        i = i + 1;
    }
    assert(all.take(i as int) =~= all);
    out
}

/// A capability, as text.
fn fmt_capability(c: &Capability) -> (out: String)
    ensures
        out@ == capability_text(c@),
{
    match c {
        Capability::Storage { max_kb } => "storage(".to_owned().concat(
            decimal(*max_kb as u64).as_str(),
        ).concat("KB)"),
        Capability::Network { hosts } => if hosts.len() == 0 {
            "network(none)".to_owned()
        } else {
            "network(".to_owned().concat(join(hosts, ",").as_str()).concat(")")
        },
        Capability::Notify => "notify".to_owned(),
        Capability::Audio => "audio".to_owned(),
        Capability::Camera => "camera".to_owned(),
        Capability::Microphone => "microphone".to_owned(),
    }
}

/// What a page requires, as text.
fn fmt_requirements(caps: &Vec<Capability>) -> (out: String)
    ensures
        out@ == requirements(capabilities_view(caps@)),
{
    if caps.len() == 0 {
        return "none".to_owned();
    }
    let ghost all = capabilities_view(caps@);
    let mut parts: Vec<String> = Vec::new();
    let mut i: usize = 0;
    while i < caps.len()
        invariant
            i <= caps@.len(),
            all == capabilities_view(caps@),
            parts@.len() == i,
            forall|j: int| 0 <= j < i ==> #[trigger] parts@[j]@ == capability_text(all[j]),
        decreases caps@.len() - i,
    {
        parts.push(fmt_capability(&caps[i]));
        i = i + 1;
    }
    assert(texts(parts@) =~= Seq::new(all.len(), |i: int| capability_text(all[i])));
    join(&parts, ", ")
}

/// Hash marks for a heading level.
fn heading_marks(level: u8) -> (out: String)
    ensures
        out@ == hashes(clamped_level(level)),
{
    let n: u8 = if level < 1 {
        1
    } else if level > 6 {
        6
    } else {
        level
    };
    let mut out = String::new();
    let mut i: u8 = 0;
    while i < n
        invariant
            i <= n,
            out@ == hashes(i as nat),
        decreases n - i,
    {
        out.push('#');
        assert(hashes(i as nat).push('#') =~= hashes((i + 1) as nat));
        i = i + 1;
    }
    out
}

/// A paragraph of a component.
fn write_block(text: &str, pad: &str, bulleted: bool) -> (out: String)
    ensures
        out@ == block(text@, pad@, bulleted),
{
    let first = write_prefix(pad, bulleted, "- ");
    let cont = write_prefix(pad, bulleted, "  ");
    let mut out = wrap_para(text, first.as_str(), cont.as_str(), WRAP_WIDTH);
    if !bulleted {
        out.push('\n');
    }
    assert(out@ =~= block(text@, pad@, bulleted));
    out
}

/// The prefix of a line.
fn write_prefix(pad: &str, bulleted: bool, bullet: &str) -> (out: String)
    ensures
        out@ == (if bulleted {
            pad@ + bullet@
        } else {
            pad@
        }),
{
    if bulleted {
        pad.to_owned().concat(bullet)
    } else {
        pad.to_owned()
    }
}

/// The placeholder of an app.
fn write_app(app_id: &str, props: &Props, pad: &str, bulleted: bool, caps: &Vec<Capability>) -> (out:
    String)
    ensures
        out@ == app_block(app_id@, props_view(*props), pad@, bulleted, capabilities_view(caps@)),
{
    let first = write_prefix(pad, bulleted, "- ");
    let cont = write_prefix(pad, bulleted, "  ");
    let title = "[app:".to_owned().concat(app_id).concat("] (not executed)");
    let mut out = wrap_para(title.as_str(), first.as_str(), cont.as_str(), WRAP_WIDTH);
    let sub = cont.concat("  ");
    let needs = "requires: ".to_owned().concat(fmt_requirements(caps).as_str());
    out.append(wrap_para(needs.as_str(), sub.as_str(), sub.as_str(), WRAP_WIDTH).as_str());
    if let Props::Json(json) = props {
        let shown = "props: ".to_owned().concat(json.as_str());
        out.append(wrap_para(shown.as_str(), sub.as_str(), sub.as_str(), WRAP_WIDTH).as_str());
    }
    if !bulleted {
        out.push('\n');
    }
    assert(out@ =~= app_block(
        app_id@,
        props_view(*props),
        pad@,
        bulleted,
        capabilities_view(caps@),
    ));
    out
}

/// Appends a component as text, and the targets of its links.
fn render_component(
    c: &Component,
    pad: &str,
    top: bool,
    bulleted: bool,
    caps: &Vec<Capability>,
    out: &mut String,
    links: &mut Vec<String>,
)
    ensures
        final(out)@ == old(out)@ + component_text(
            c@,
            pad@,
            top,
            bulleted,
            capabilities_view(caps@),
            old(links)@.len(),
        ),
        texts(final(links)@) == texts(old(links)@) + links_of(c@),
    decreases c, 0nat,
{
    match c {
        Component::Text { text } => {
            out.append(write_block(text.as_str(), pad, bulleted).as_str());
        },
        Component::Heading { level, text } => {
            let mut line = heading_marks(*level);
            line.push(' ');
            line.append(text.as_str());
            out.append(write_block(line.as_str(), pad, bulleted).as_str());
        },
        Component::Image { content_id, alt } => {
            let line = "[image: ".to_owned().concat(alt.as_str()).concat(" (").concat(
                content_id.as_str(),
            ).concat(")]");
            out.append(write_block(line.as_str(), pad, bulleted).as_str());
        },
        Component::Link { label, target } => {
            links.push(fmt_target(target));
            let line = label.clone().concat(" [").concat(
                decimal(links.len() as u64).as_str(),
            ).concat("]");
            out.append(write_block(line.as_str(), pad, bulleted).as_str());
        },
        Component::Collection { items } => {
            let deeper = pad.to_owned().concat("  ");
            render_items(items, deeper.as_str(), caps, out, links);
            if top && !bulleted {
                out.push('\n');
            }
        },
        Component::App { app_id, props } => {
            out.append(write_app(app_id.as_str(), props, pad, bulleted, caps).as_str());
        },
    }
    assert(out@ =~= old(out)@ + component_text(
        c@,
        pad@,
        top,
        bulleted,
        capabilities_view(caps@),
        old(links)@.len(),
    ));
    assert(texts(links@) =~= texts(old(links)@) + links_of(c@));
}

/// Appends the items of a collection as text, and the targets of their links.
fn render_items(
    items: &Vec<Component>,
    pad: &str,
    caps: &Vec<Capability>,
    out: &mut String,
    links: &mut Vec<String>,
)
    ensures
        final(out)@ == old(out)@ + items_text(
            list_view(items@),
            pad@,
            capabilities_view(caps@),
            old(links)@.len(),
        ),
        texts(final(links)@) == texts(old(links)@) + list_links(list_view(items@)),
    decreases items, 1nat,
{
    let ghost all = list_view(items@);
    let ghost cv = capabilities_view(caps@);
    proof {
        lemma_list_view(items@);
        assert(all.take(0) =~= Seq::empty());
        assert(out@ =~= old(out)@ + items_text(all.take(0), pad@, cv, old(links)@.len()));
        assert(texts(links@) =~= texts(old(links)@) + list_links(all.take(0)));
    }
    let mut i: usize = 0;
    while i < items.len()
        invariant
            i <= items@.len(),
            all == list_view(items@),
            cv == capabilities_view(caps@),
            all.len() == items@.len(),
            forall|j: int| 0 <= j < items@.len() ==> #[trigger] all[j] == component_view(items@[j]),
            out@ == old(out)@ + items_text(all.take(i as int), pad@, cv, old(links)@.len()),
            texts(links@) == texts(old(links)@) + list_links(all.take(i as int)),
        decreases items@.len() - i,
    {
        let nested = match &items[i] {
            Component::Collection { .. } => true,
            _ => false,
        };
        proof {
            assert(all.take(i + 1).drop_last() =~= all.take(i as int));
            assert(all.take(i + 1).last() == all[i as int]);
            assert(nested == (all[i as int] is Collection));
            assert(texts(links@).len() == links@.len());
        }
        render_component(&items[i], pad, false, !nested, caps, out, links);
        proof {
            assert(out@ =~= old(out)@ + items_text(
                all.take(i + 1),
                pad@,
                cv,
                old(links)@.len(),
            ));
            assert(texts(links@) =~= texts(old(links)@) + list_links(all.take(i + 1)));
        }
        i = i + 1;
    }
    assert(all.take(i as int) =~= all);
}

/// The lines of the link index.
fn write_index(links: &Vec<String>) -> (out: String)
    ensures
        out@ == index_lines(texts(links@)),
{
    let ghost all = texts(links@);
    let mut out = String::new();
    let mut i: usize = 0;
    assert(all.take(0) =~= Seq::empty());
    while i < links.len()
        invariant
            i <= links@.len(),
            all == texts(links@),
            out@ == index_lines(all.take(i as int)),
        decreases links@.len() - i,
    {
        proof {
            assert(all.take(i + 1).drop_last() =~= all.take(i as int));
            assert(all.take(i + 1).last() == links@[i as int]@);
        }
        out.append("  [");
        out.append(decimal(i as u64 + 1).as_str());
        out.append("] ");
        out.append(links[i].as_str());
        out.push('\n');
        assert(out@ =~= index_lines(all.take(i + 1)));
        i = i + 1;
    }
    assert(all.take(i as int) =~= all);
    out
}

/// A page as text for a reader.
pub fn render_text(page: &Page) -> (out: String)
    ensures
        out@ == page_text(page@),
{
    let ghost all = list_view(page.components@);
    let ghost cv = capabilities_view(page.capabilities@);
    let mut out = wrap_para(page.metadata.title.as_str(), "# ", "  ", WRAP_WIDTH);
    out.append("@");
    out.append(page.metadata.site.as_str());
    out.append(" /");
    out.append(page.metadata.path.as_str());
    out.append("  rev:");
    out.append(decimal(page.metadata.revision).as_str());
    out.append("\n\n");
    let ghost head = out@;
    let mut links: Vec<String> = Vec::new();
    let mut i: usize = 0;
    proof {
        lemma_list_view(page.components@);
        assert(all.take(0) =~= Seq::empty());
        assert(head + body_text(all.take(0), cv) =~= head);
        assert(texts(links@) =~= list_links(all.take(0)));
    }
    while i < page.components.len()
        invariant
            i <= page.components@.len(),
            all == list_view(page.components@),
            cv == capabilities_view(page.capabilities@),
            all.len() == page.components@.len(),
            forall|j: int|
                0 <= j < page.components@.len() ==> #[trigger] all[j] == component_view(
                    page.components@[j],
                ),
            out@ == head + body_text(all.take(i as int), cv),
            texts(links@) == list_links(all.take(i as int)),
        decreases page.components@.len() - i,
    {
        proof {
            assert(all.take(i + 1).drop_last() =~= all.take(i as int));
            assert(all.take(i + 1).last() == all[i as int]);
            assert(texts(links@).len() == links@.len());
        }
        render_component(
            &page.components[i],
            "",
            true,
            false,
            &page.capabilities,
            &mut out,
            &mut links,
        );
        proof {
            reveal_strlit("");
            assert(""@ =~= Seq::empty());
            assert(out@ =~= head + body_text(all.take(i + 1), cv));
        }
        i = i + 1;
    }
    assert(all.take(i as int) =~= all);
    if links.len() > 0 {
        out.append("Links:\n");
        out.append(write_index(&links).as_str());
    }
    assert(texts(links@).len() == links@.len());
    assert(out@ =~= page_text(page@));
    out
}

/// Nothing but white space.
pub open spec fn blank(s: Seq<char>) -> bool {
    forall|i: int| 0 <= i < s.len() ==> is_white(#[trigger] s[i])
}

/// A word: at least one character, no white space.
pub open spec fn is_word(w: Seq<char>) -> bool {
    &&& w.len() > 0
    &&& forall|i: int| 0 <= i < w.len() ==> !is_white(#[trigger] w[i])
}

proof fn lemma_word_len_cut(a: Seq<char>, c: char, b: Seq<char>)
    requires
        is_white(c),
    ensures
        word_len(a.push(c) + b) == word_len(a),
    decreases a.len(),
{
    let s = a.push(c) + b;
    if a.len() == 0 {
        assert(s[0] == c);
    } else if !is_white(a[0]) {
        lemma_word_len_cut(a.skip(1), c, b);
        assert(s.skip(1) =~= a.skip(1).push(c) + b);
        assert(s[0] == a[0]);
    } else {
        assert(s[0] == a[0]);
    }
}

proof fn lemma_words_cut(a: Seq<char>, c: char, b: Seq<char>)
    requires
        is_white(c),
    ensures
        words(a.push(c) + b) == words(a) + words(b),
    decreases a.len(),
{
    let s = a.push(c) + b;
    if a.len() == 0 {
        assert(s[0] == c);
        assert(s.skip(1) =~= b);
        assert(words(a) + words(b) =~= words(b));
    } else if is_white(a[0]) {
        assert(s[0] == a[0]);
        assert(s.skip(1) =~= a.skip(1).push(c) + b);
        lemma_words_cut(a.skip(1), c, b);
    } else {
        let n = word_len(a) as int;
        lemma_word_len(a);
        lemma_word_len_cut(a, c, b);
        lemma_words_cut(a.skip(n), c, b);
        assert(s[0] == a[0]);
        assert(s.take(n) =~= a.take(n));
        assert(s.skip(n) =~= a.skip(n).push(c) + b);
        assert(words(s) =~= seq![a.take(n)] + (words(a.skip(n)) + words(b)));
        assert(words(s) =~= words(a) + words(b));
    }
}

proof fn lemma_words_one(w: Seq<char>)
    requires
        is_word(w),
    ensures
        words(w) == seq![w],
{
    reveal_with_fuel(words, 2);
    lemma_word_len(w);
    assert(!is_white(w[0]));
    if word_len(w) < w.len() {
        assert(!is_white(w[word_len(w) as int]));
    }
    assert(w.take(w.len() as int) =~= w);
    assert(w.skip(w.len() as int) =~= Seq::empty());
    assert(words(w) =~= seq![w]);
}

proof fn lemma_words_behind_blank(a: Seq<char>, b: Seq<char>)
    requires
        blank(a),
    ensures
        words(a + b) == words(b),
    decreases a.len(),
{
    if a.len() == 0 {
        assert(a + b =~= b);
    } else {
        assert((a + b)[0] == a[0]);
        assert((a + b).skip(1) =~= a.skip(1) + b);
        assert forall|i: int| 0 <= i < a.skip(1).len() implies is_white(#[trigger] a.skip(1)[i]) by {
            assert(a.skip(1)[i] == a[i + 1]);
        }
        lemma_words_behind_blank(a.skip(1), b);
    }
}

/// The words of a text are words.
proof fn lemma_words_are_words(s: Seq<char>)
    ensures
        forall|i: int| 0 <= i < words(s).len() ==> is_word(#[trigger] words(s)[i]),
    decreases s.len(),
{
    if s.len() > 0 {
        if is_white(s[0]) {
            lemma_words_are_words(s.skip(1));
            assert(words(s) == words(s.skip(1)));
        } else {
            let n = word_len(s) as int;
            lemma_word_len(s);
            lemma_words_are_words(s.skip(n));
            assert(words(s) == seq![s.take(n)] + words(s.skip(n)));
            assert(is_word(s.take(n)));
            assert forall|i: int| 0 <= i < words(s).len() implies is_word(
                #[trigger] words(s)[i],
            ) by {
                if i > 0 {
                    assert(words(s)[i] == words(s.skip(n))[i - 1]);
                }
            }
        }
    }
}

proof fn lemma_filled_words(
    buf: Seq<char>,
    line: nat,
    ws: Seq<Seq<char>>,
    cont: Seq<char>,
    width: nat,
)
    requires
        blank(cont),
        forall|i: int| 0 <= i < ws.len() ==> is_word(#[trigger] ws[i]),
    ensures
        words(filled(buf, line, ws, cont, width)) == words(buf) + ws,
    decreases ws.len(),
{
    if ws.len() == 0 {
        assert(words(buf) + ws =~= words(buf));
    } else {
        let w = ws[0];
        lemma_words_one(w);
        lemma_words_cut(buf, ' ', w);
        lemma_words_cut(buf, '\n', cont + w);
        lemma_words_behind_blank(cont, w);
        assert(buf.push('\n') + cont + w =~= buf.push('\n') + (cont + w));
        assert forall|i: int| 0 <= i < ws.skip(1).len() implies is_word(
            #[trigger] ws.skip(1)[i],
        ) by {
            assert(ws.skip(1)[i] == ws[i + 1]);
        }
        lemma_filled_words(
            buf.push(' ') + w,
            line + 1 + w.len(),
            ws.skip(1),
            cont,
            width,
        );
        lemma_filled_words(
            buf.push('\n') + cont + w,
            byte_len(cont) + w.len(),
            ws.skip(1),
            cont,
            width,
        );
        assert(words(buf) + seq![w] + ws.skip(1) =~= words(buf) + ws);
    }
}

/// Wrapping behind blank prefixes never splits, loses or reorders a word.
pub proof fn law_wrap_keeps_words(
    text: Seq<char>,
    first: Seq<char>,
    cont: Seq<char>,
    width: nat,
)
    requires
        blank(first),
        blank(cont),
    ensures
        words(para(text, first, cont, width)) == words(text),
{
    let ws = words(text);
    let none = Seq::<char>::empty();
    if ws.len() == 0 {
        lemma_trim_end(first);
        let t = trim_end(first);
        lemma_words_cut(t, '\n', none);
        lemma_words_behind_blank(t, none);
        assert(t + none =~= t);
        assert(t.push('\n') + none =~= t.push('\n'));
        assert(words(t) + words(none) =~= ws);
    } else {
        lemma_words_are_words(text);
        lemma_words_one(ws[0]);
        lemma_words_behind_blank(first, ws[0]);
        assert forall|i: int| 0 <= i < ws.skip(1).len() implies is_word(
            #[trigger] ws.skip(1)[i],
        ) by {
            assert(ws.skip(1)[i] == ws[i + 1]);
        }
        let width2 = used_width(first, cont, width);
        let line = byte_len(first) + ws[0].len();
        lemma_filled_words(first + ws[0], line, ws.skip(1), cont, width2);
        let body = filled(first + ws[0], line, ws.skip(1), cont, width2);
        lemma_words_cut(body, '\n', none);
        assert(body.push('\n') + none =~= body.push('\n'));
        assert(seq![ws[0]] + ws.skip(1) =~= ws);
        assert(ws + words(none) =~= ws);
    }
}

proof fn lemma_trim_end(s: Seq<char>)
    ensures
        trim_end(s).len() <= s.len(),
        trim_end(s) == s.take(trim_end(s).len() as int),
        trim_end(s).len() > 0 ==> !is_white(trim_end(s).last()),
        blank(s) ==> blank(trim_end(s)),
    decreases s.len(),
{
    if s.len() > 0 && is_white(s.last()) {
        lemma_trim_end(s.drop_last());
        assert(s.drop_last().take(trim_end(s).len() as int) =~= s.take(trim_end(s).len() as int));
    } else {
        assert(s.take(s.len() as int) =~= s);
    }
}

proof fn lemma_filled_end(
    buf: Seq<char>,
    line: nat,
    ws: Seq<Seq<char>>,
    cont: Seq<char>,
    width: nat,
)
    requires
        buf.len() > 0,
        !is_white(buf.last()),
        forall|i: int| 0 <= i < ws.len() ==> is_word(#[trigger] ws[i]),
    ensures
        filled(buf, line, ws, cont, width).len() > 0,
        !is_white(filled(buf, line, ws, cont, width).last()),
    decreases ws.len(),
{
    if ws.len() > 0 {
        let w = ws[0];
        assert(!is_white(w[w.len() - 1]));
        assert((buf.push(' ') + w).last() == w[w.len() - 1]);
        assert((buf.push('\n') + cont + w).last() == w[w.len() - 1]);
        assert forall|i: int| 0 <= i < ws.skip(1).len() implies is_word(
            #[trigger] ws.skip(1)[i],
        ) by {
            assert(ws.skip(1)[i] == ws[i + 1]);
        }
        lemma_filled_end(buf.push(' ') + w, line + 1 + w.len(), ws.skip(1), cont, width);
        lemma_filled_end(
            buf.push('\n') + cont + w,
            byte_len(cont) + w.len(),
            ws.skip(1),
            cont,
            width,
        );
    }
}

/// A paragraph ends in exactly one newline.
pub proof fn law_para_ends_in_one_newline(
    text: Seq<char>,
    first: Seq<char>,
    cont: Seq<char>,
    width: nat,
)
    ensures
        para(text, first, cont, width).len() > 0,
        para(text, first, cont, width).last() == '\n',
        ({
            let body = para(text, first, cont, width).drop_last();
            body.len() > 0 ==> !is_white(body.last())
        }),
{
    let ws = words(text);
    if ws.len() == 0 {
        lemma_trim_end(first);
        assert(para(text, first, cont, width).drop_last() =~= trim_end(first));
    } else {
        lemma_words_are_words(text);
        assert(is_word(ws[0]));
        assert(!is_white(ws[0][ws[0].len() - 1]));
        assert forall|i: int| 0 <= i < ws.skip(1).len() implies is_word(
            #[trigger] ws.skip(1)[i],
        ) by {
            assert(ws.skip(1)[i] == ws[i + 1]);
        }
        let width2 = used_width(first, cont, width);
        let line = byte_len(first) + ws[0].len();
        lemma_filled_end(first + ws[0], line, ws.skip(1), cont, width2);
        let body = filled(first + ws[0], line, ws.skip(1), cont, width2);
        assert(para(text, first, cont, width).drop_last() =~= body);
    }
}

/// Number of characters behind the last newline.
pub open spec fn last_line_len(s: Seq<char>) -> nat
    decreases s.len(),
{
    if s.len() == 0 || s.last() == '\n' {
        0
    } else {
        1 + last_line_len(s.drop_last())
    }
}

/// No line is longer than `width`.
pub open spec fn lines_fit(s: Seq<char>, width: nat) -> bool {
    forall|n: int| 0 <= n <= s.len() ==> #[trigger] last_line_len(s.take(n)) <= width
}

proof fn lemma_line_grows(s: Seq<char>, t: Seq<char>, width: nat)
    requires
        lines_fit(s, width),
        forall|i: int| 0 <= i < t.len() ==> #[trigger] t[i] != '\n',
        last_line_len(s) + t.len() <= width,
    ensures
        lines_fit(s + t, width),
        last_line_len(s + t) == last_line_len(s) + t.len(),
    decreases t.len(),
{
    if t.len() == 0 {
        assert(s + t =~= s);
    } else {
        let u = t.drop_last();
        assert forall|i: int| 0 <= i < u.len() implies #[trigger] u[i] != '\n' by {
            assert(u[i] == t[i]);
        }
        lemma_line_grows(s, u, width);
        assert((s + t).drop_last() =~= s + u);
        assert((s + t).last() == t[t.len() - 1]);
        assert forall|n: int| 0 <= n <= (s + t).len() implies #[trigger] last_line_len(
            (s + t).take(n),
        ) <= width by {
            if n < (s + t).len() {
                assert((s + t).take(n) =~= (s + u).take(n));
            } else {
                assert((s + t).take(n) =~= s + t);
            }
        }
    }
}

proof fn lemma_line_breaks(s: Seq<char>, width: nat)
    requires
        lines_fit(s, width),
    ensures
        lines_fit(s.push('\n'), width),
        last_line_len(s.push('\n')) == 0,
{
    assert forall|n: int| 0 <= n <= s.len() + 1 implies #[trigger] last_line_len(
        s.push('\n').take(n),
    ) <= width by {
        if n <= s.len() {
            assert(s.push('\n').take(n) =~= s.take(n));
        } else {
            assert(s.push('\n').take(n) =~= s.push('\n'));
        }
    }
}

proof fn lemma_no_newline(w: Seq<char>)
    requires
        is_word(w),
    ensures
        forall|i: int| 0 <= i < w.len() ==> #[trigger] w[i] != '\n',
{
    assert forall|i: int| 0 <= i < w.len() implies #[trigger] w[i] != '\n' by {
        assert(!is_white(w[i]));
    }
}

proof fn lemma_filled_fits(
    buf: Seq<char>,
    line: nat,
    ws: Seq<Seq<char>>,
    cont: Seq<char>,
    width: nat,
)
    requires
        lines_fit(buf, width),
        last_line_len(buf) <= line <= width,
        cont.len() <= byte_len(cont),
        forall|i: int| 0 <= i < cont.len() ==> #[trigger] cont[i] != '\n',
        forall|i: int|
            0 <= i < ws.len() ==> is_word(#[trigger] ws[i]) && byte_len(cont) + ws[i].len()
                <= width,
    ensures
        lines_fit(filled(buf, line, ws, cont, width), width),
    decreases ws.len(),
{
    if ws.len() > 0 {
        let w = ws[0];
        lemma_no_newline(w);
        assert forall|i: int| 0 <= i < ws.skip(1).len() implies is_word(#[trigger] ws.skip(1)[i])
            && byte_len(cont) + ws.skip(1)[i].len() <= width by {
            assert(ws.skip(1)[i] == ws[i + 1]);
        }
        if line + 1 + w.len() <= width {
            let t = seq![' '] + w;
            assert(buf.push(' ') + w =~= buf + t);
            assert forall|i: int| 0 <= i < t.len() implies #[trigger] t[i] != '\n' by {
                if i > 0 {
                    assert(t[i] == w[i - 1]);
                }
            }
            lemma_line_grows(buf, t, width);
            lemma_filled_fits(buf.push(' ') + w, line + 1 + w.len(), ws.skip(1), cont, width);
        } else {
            let t = cont + w;
            lemma_line_breaks(buf, width);
            assert(buf.push('\n') + cont + w =~= buf.push('\n') + t);
            assert forall|i: int| 0 <= i < t.len() implies #[trigger] t[i] != '\n' by {
                if i >= cont.len() {
                    assert(t[i] == w[i - cont.len()]);
                } else {
                    assert(t[i] == cont[i]);
                }
            }
            lemma_line_grows(buf.push('\n'), t, width);
            lemma_filled_fits(
                buf.push('\n') + cont + w,
                byte_len(cont) + w.len(),
                ws.skip(1),
                cont,
                width,
            );
        }
    }
}

/// A wrapped paragraph keeps to its width, unless a single word is too long
/// for a line of its own.
pub proof fn law_wrapped_lines_fit(
    text: Seq<char>,
    first: Seq<char>,
    cont: Seq<char>,
    width: nat,
)
    requires
        forall|i: int| 0 <= i < first.len() ==> #[trigger] first[i] != '\n',
        forall|i: int| 0 <= i < cont.len() ==> #[trigger] cont[i] != '\n',
        forall|i: int|
            0 <= i < words(text).len() ==> {
                let w = #[trigger] words(text)[i];
                &&& byte_len(first) + w.len() <= used_width(first, cont, width)
                &&& byte_len(cont) + w.len() <= used_width(first, cont, width)
            },
    ensures
        lines_fit(para(text, first, cont, width), used_width(first, cont, width)),
{
    let width2 = used_width(first, cont, width);
    let ws = words(text);
    let none = Seq::<char>::empty();
    crate::text::lemma_byte_len_bound(first);
    crate::text::lemma_byte_len_bound(cont);
    assert forall|n: int| 0 <= n <= none.len() implies #[trigger] last_line_len(none.take(n))
        <= width2 by {
        assert(none.take(n) =~= none);
    }
    if ws.len() == 0 {
        lemma_trim_end(first);
        let t = trim_end(first);
        assert forall|i: int| 0 <= i < t.len() implies #[trigger] t[i] != '\n' by {
            assert(t[i] == first[i]);
        }
        lemma_line_grows(none, t, width2);
        assert(none + t =~= t);
        lemma_line_breaks(t, width2);
    } else {
        lemma_words_are_words(text);
        let t = first + ws[0];
        lemma_no_newline(ws[0]);
        assert forall|i: int| 0 <= i < t.len() implies #[trigger] t[i] != '\n' by {
            if i >= first.len() {
                assert(t[i] == ws[0][i - first.len()]);
            } else {
                assert(t[i] == first[i]);
            }
        }
        lemma_line_grows(none, t, width2);
        assert(none + t =~= t);
        assert forall|i: int| 0 <= i < ws.skip(1).len() implies is_word(#[trigger] ws.skip(1)[i])
            && byte_len(cont) + ws.skip(1)[i].len() <= width2 by {
            assert(ws.skip(1)[i] == ws[i + 1]);
        }
        let line = byte_len(first) + ws[0].len();
        lemma_filled_fits(t, line, ws.skip(1), cont, width2);
        lemma_line_breaks(filled(t, line, ws.skip(1), cont, width2), width2);
    }
}

/// The targets of references, as text.
pub open spec fn reference_texts(refs: Seq<ReferenceView>) -> Seq<Seq<char>> {
    Seq::new(refs.len(), |i: int| target_text(refs[i].target))
}

proof fn lemma_edges_join(a: Seq<(ComponentView, nat)>, b: Seq<(ComponentView, nat)>)
    ensures
        edges(a + b) == edges(a) + edges(b),
    decreases b.len(),
{
    if b.len() == 0 {
        assert(a + b =~= a);
        assert(edges(a) + edges(b) =~= edges(a));
    } else {
        lemma_edges_join(a, b.drop_last());
        assert((a + b).drop_last() =~= a + b.drop_last());
        assert(edges(a + b) =~= edges(a) + edges(b));
    }
}

proof fn lemma_links_are_edges(c: ComponentView, depth: nat)
    ensures
        links_of(c) == reference_texts(edges(nodes_of(c, depth))),
    decreases c,
{
    reveal_with_fuel(edges, 2);
    let own = seq![(c, depth)];
    assert(own.drop_last() =~= Seq::empty());
    if let ComponentView::Collection { items } = c {
        lemma_list_links_are_edges(items, depth + 1);
        lemma_edges_join(own, list_nodes(items, depth + 1));
        assert(edges(own) + edges(list_nodes(items, depth + 1)) =~= edges(
            list_nodes(items, depth + 1),
        ));
    } else {
        assert(nodes_of(c, depth) =~= own);
        assert(links_of(c) =~= reference_texts(edges(own)));
    }
}

proof fn lemma_list_links_are_edges(items: Seq<ComponentView>, depth: nat)
    ensures
        list_links(items) == reference_texts(edges(list_nodes(items, depth))),
    decreases items,
{
    if items.len() == 0 {
        assert(list_links(items) =~= reference_texts(edges(list_nodes(items, depth))));
    } else {
        lemma_list_links_are_edges(items.drop_last(), depth);
        lemma_links_are_edges(items.last(), depth);
        let a = list_nodes(items.drop_last(), depth);
        let b = nodes_of(items.last(), depth);
        lemma_edges_join(a, b);
        assert(reference_texts(edges(a) + edges(b)) =~= reference_texts(edges(a))
            + reference_texts(edges(b)));
    }
}

/// The link index lists the references of the page, in document order.
pub proof fn law_index_lists_references(p: PageView)
    ensures
        list_links(p.components) == reference_texts(crate::content::page_references(p)),
{
    lemma_list_links_are_edges(p.components, 0);
}

/// The words of a text are those of its parts, wherever it is cut at white
/// space; a text without white space is one word, and white space is none.
pub proof fn law_words_are_what_white_space_parts(a: Seq<char>, c: char, b: Seq<char>)
    ensures
        is_white(c) ==> words(a.push(c) + b) == words(a) + words(b),
        a.len() > 0 && (forall|i: int| 0 <= i < a.len() ==> !is_white(#[trigger] a[i])) ==> words(a)
            == seq![a],
        words(Seq::empty()) == Seq::<Seq<char>>::empty(),
{
    if is_white(c) {
        lemma_words_cut(a, c, b);
    }
    if a.len() > 0 && (forall|i: int| 0 <= i < a.len() ==> !is_white(#[trigger] a[i])) {
        assert(is_word(a));
        lemma_words_one(a);
    }
}

/// The text is empty or ends in white space.
spec fn open_ended(s: Seq<char>) -> bool {
    s.len() == 0 || is_white(s.last())
}

proof fn lemma_words_join(a: Seq<char>, b: Seq<char>)
    requires
        open_ended(a),
    ensures
        words(a + b) == words(a) + words(b),
{
    let none = Seq::<char>::empty();
    if a.len() == 0 {
        assert(a + b =~= b);
        assert(words(a) + words(b) =~= words(b));
    } else {
        let front = a.drop_last();
        assert(front.push(a.last()) =~= a);
        lemma_words_cut(front, a.last(), b);
        lemma_words_cut(front, a.last(), none);
        assert(a + none =~= a);
        assert(words(front) + words(none) =~= words(front));
    }
}

proof fn lemma_words_trimmed(s: Seq<char>)
    ensures
        words(trim_end(s)) == words(s),
    decreases s.len(),
{
    if s.len() > 0 && is_white(s.last()) {
        lemma_words_trimmed(s.drop_last());
        let none = Seq::<char>::empty();
        lemma_words_cut(s.drop_last(), s.last(), none);
        assert(s.drop_last().push(s.last()) + none =~= s);
        assert(words(s.drop_last()) + words(none) =~= words(s.drop_last()));
    }
}

proof fn lemma_para_words(text: Seq<char>, first: Seq<char>, cont: Seq<char>, width: nat)
    requires
        open_ended(first),
        blank(cont),
    ensures
        words(para(text, first, cont, width)) == words(first) + words(text),
        open_ended(para(text, first, cont, width)),
{
    let ws = words(text);
    let none = Seq::<char>::empty();
    if ws.len() == 0 {
        let t = trim_end(first);
        lemma_words_trimmed(first);
        lemma_words_cut(t, '\n', none);
        assert(t.push('\n') + none =~= t.push('\n'));
        assert(words(t) + words(none) =~= words(first) + ws);
    } else {
        lemma_words_are_words(text);
        lemma_words_one(ws[0]);
        lemma_words_join(first, ws[0]);
        assert forall|i: int| 0 <= i < ws.skip(1).len() implies is_word(
            #[trigger] ws.skip(1)[i],
        ) by {
            assert(ws.skip(1)[i] == ws[i + 1]);
        }
        let width2 = used_width(first, cont, width);
        let line = byte_len(first) + ws[0].len();
        lemma_filled_words(first + ws[0], line, ws.skip(1), cont, width2);
        let body = filled(first + ws[0], line, ws.skip(1), cont, width2);
        lemma_words_cut(body, '\n', none);
        assert(body.push('\n') + none =~= body.push('\n'));
        assert(words(body) + words(none) =~= words(body));
        assert(words(first) + seq![ws[0]] + ws.skip(1) =~= words(first) + ws);
    }
}

/// The dash before a bullet.
spec fn dash(bulleted: bool) -> Seq<Seq<char>> {
    if bulleted {
        seq!["-"@]
    } else {
        Seq::empty()
    }
}

proof fn lemma_prefixes(pad: Seq<char>, bulleted: bool)
    requires
        blank(pad),
    ensures
        words(first_prefix(pad, bulleted)) == dash(bulleted),
        open_ended(first_prefix(pad, bulleted)),
        blank(next_prefix(pad, bulleted)),
        blank(next_prefix(pad, bulleted) + "  "@),
        blank(pad + "  "@),
{
    reveal_strlit("- ");
    reveal_strlit("  ");
    reveal_strlit("-");
    let none = Seq::<char>::empty();
    lemma_words_behind_blank(pad, none);
    assert(pad + none =~= pad);
    if bulleted {
        let d = "-"@;
        lemma_words_behind_blank(pad, "- "@);
        assert(is_word(d));
        lemma_words_one(d);
        lemma_words_cut(d, ' ', none);
        assert(d.push(' ') + none =~= "- "@);
        assert(words("- "@) =~= seq![d]);
    } else if pad.len() > 0 {
        assert(is_white(pad[pad.len() - 1]));
    }
}

proof fn lemma_block_words(text: Seq<char>, pad: Seq<char>, bulleted: bool)
    requires
        blank(pad),
    ensures
        words(block(text, pad, bulleted)) == dash(bulleted) + words(text),
        open_ended(block(text, pad, bulleted)),
{
    lemma_prefixes(pad, bulleted);
    let p = para(
        text,
        first_prefix(pad, bulleted),
        next_prefix(pad, bulleted),
        WRAP_WIDTH as nat,
    );
    lemma_para_words(
        text,
        first_prefix(pad, bulleted),
        next_prefix(pad, bulleted),
        WRAP_WIDTH as nat,
    );
    lemma_gap(p, bulleted);
}

proof fn lemma_gap(p: Seq<char>, bulleted: bool)
    requires
        open_ended(p),
    ensures
        words(p + gap(bulleted)) == words(p),
        open_ended(p + gap(bulleted)),
{
    let none = Seq::<char>::empty();
    if bulleted {
        assert(p + gap(bulleted) =~= p);
    } else {
        lemma_words_cut(p, '\n', none);
        assert(p.push('\n') + none =~= p + gap(bulleted));
        assert(words(p) + words(none) =~= words(p));
    }
}

proof fn lemma_app_words(
    app_id: Seq<char>,
    props: Option<Seq<char>>,
    pad: Seq<char>,
    bulleted: bool,
    caps: Seq<CapabilityView>,
)
    requires
        blank(pad),
    ensures
        open_ended(app_block(app_id, props, pad, bulleted, caps)),
        words(app_block(app_id, props, pad, bulleted, caps)) == dash(bulleted) + words(
            "[app:"@ + app_id + "] (not executed)"@,
        ) + words("requires: "@ + requirements(caps)) + match props {
            Some(json) => words("props: "@ + json),
            None => Seq::empty(),
        },
{
    lemma_prefixes(pad, bulleted);
    let none = Seq::<char>::empty();
    let w = WRAP_WIDTH as nat;
    let (first, next) = (first_prefix(pad, bulleted), next_prefix(pad, bulleted));
    let sub = next + "  "@;
    lemma_words_behind_blank(sub, none);
    assert(sub + none =~= sub);
    if sub.len() > 0 {
        assert(is_white(sub[sub.len() - 1]));
    }
    let title = para("[app:"@ + app_id + "] (not executed)"@, first, next, w);
    let needs = para("requires: "@ + requirements(caps), sub, sub, w);
    lemma_para_words("[app:"@ + app_id + "] (not executed)"@, first, next, w);
    lemma_para_words("requires: "@ + requirements(caps), sub, sub, w);
    assert(words(needs) =~= words("requires: "@ + requirements(caps)));
    lemma_words_join(title, needs);
    let two = title + needs;
    assert(open_ended(two)) by {
        law_para_ends_in_one_newline("requires: "@ + requirements(caps), sub, sub, w);
        assert(two.last() == needs.last());
    }
    match props {
        Some(json) => {
            let shown = para("props: "@ + json, sub, sub, w);
            lemma_para_words("props: "@ + json, sub, sub, w);
            assert(words(shown) =~= words("props: "@ + json));
            lemma_words_join(two, shown);
            assert(open_ended(two + shown)) by {
                law_para_ends_in_one_newline("props: "@ + json, sub, sub, w);
                assert((two + shown).last() == shown.last());
            }
            lemma_gap(two + shown, bulleted);
        },
        None => {
            assert(two + Seq::<char>::empty() =~= two);
            lemma_gap(two, bulleted);
            assert(words(two) + Seq::<Seq<char>>::empty() =~= words(two));
        },
    }
}

/// The words of a node of a page, which is the `n`-th link where it is one.
spec fn node_words(node: (ComponentView, nat), caps: Seq<CapabilityView>, n: nat) -> Seq<
    Seq<char>,
> {
    dash(node.1 > 0 && !(node.0 is Collection)) + match node.0 {
        ComponentView::Text { text } => words(text),
        ComponentView::Heading { level, text } => words(
            hashes(clamped_level(level)).push(' ') + text,
        ),
        ComponentView::Image { content_id, alt } => words(
            "[image: "@ + alt + " ("@ + content_id + ")]"@,
        ),
        ComponentView::Link { label, .. } => words(label + " ["@ + dec_chars(n) + "]"@),
        ComponentView::Collection { .. } => Seq::empty(),
        ComponentView::App { app_id, props } => words("[app:"@ + app_id + "] (not executed)"@)
            + words("requires: "@ + requirements(caps)) + match props {
            Some(json) => words("props: "@ + json),
            None => Seq::empty(),
        },
    }
}

/// The words of nodes, where `before` links stand before them.
spec fn nodes_words(
    nodes: Seq<(ComponentView, nat)>,
    caps: Seq<CapabilityView>,
    before: nat,
) -> Seq<Seq<char>>
    decreases nodes.len(),
{
    if nodes.len() == 0 {
        Seq::empty()
    } else {
        nodes_words(nodes.drop_last(), caps, before) + node_words(
            nodes.last(),
            caps,
            before + edges(nodes).len(),
        )
    }
}

proof fn lemma_nodes_words_join(
    a: Seq<(ComponentView, nat)>,
    b: Seq<(ComponentView, nat)>,
    caps: Seq<CapabilityView>,
    before: nat,
)
    ensures
        nodes_words(a + b, caps, before) == nodes_words(a, caps, before) + nodes_words(
            b,
            caps,
            before + edges(a).len(),
        ),
    decreases b.len(),
{
    if b.len() == 0 {
        assert(a + b =~= a);
        assert(nodes_words(a, caps, before) + Seq::<Seq<char>>::empty() =~= nodes_words(
            a,
            caps,
            before,
        ));
    } else {
        lemma_nodes_words_join(a, b.drop_last(), caps, before);
        lemma_edges_join(a, b);
        assert((a + b).drop_last() =~= a + b.drop_last());
        assert((a + b).last() == b.last());
        let x = nodes_words(a, caps, before);
        let y = nodes_words(b.drop_last(), caps, before + edges(a).len());
        let z = node_words(b.last(), caps, before + edges(a).len() + edges(b).len());
        assert(x + y + z =~= x + (y + z));
    }
}

proof fn lemma_component_words(
    c: ComponentView,
    pad: Seq<char>,
    top: bool,
    bulleted: bool,
    caps: Seq<CapabilityView>,
    before: nat,
    depth: nat,
)
    requires
        blank(pad),
        bulleted == (depth > 0 && !(c is Collection)),
    ensures
        words(component_text(c, pad, top, bulleted, caps, before)) == nodes_words(
            nodes_of(c, depth),
            caps,
            before,
        ),
        open_ended(component_text(c, pad, top, bulleted, caps, before)),
        links_of(c).len() == edges(nodes_of(c, depth)).len(),
    decreases c,
{
    lemma_links_are_edges(c, depth);
    reveal_with_fuel(nodes_words, 2);
    reveal_with_fuel(edges, 2);
    let own = seq![(c, depth)];
    assert(own.drop_last() =~= Seq::empty());
    let none = Seq::<Seq<char>>::empty();
    match c {
        ComponentView::Text { text } => {
            lemma_block_words(text, pad, bulleted);
        },
        ComponentView::Heading { level, text } => {
            lemma_block_words(hashes(clamped_level(level)).push(' ') + text, pad, bulleted);
        },
        ComponentView::Image { content_id, alt } => {
            lemma_block_words("[image: "@ + alt + " ("@ + content_id + ")]"@, pad, bulleted);
        },
        ComponentView::Link { label, target } => {
            lemma_block_words(label + " ["@ + dec_chars(before + 1) + "]"@, pad, bulleted);
            assert(edges(own) =~= seq![ReferenceView { label, target }]);
        },
        ComponentView::Collection { items } => {
            lemma_prefixes(pad, false);
            lemma_items_words(items, pad + "  "@, caps, before, depth + 1);
            let inner = items_text(items, pad + "  "@, caps, before);
            let t = component_text(c, pad, top, bulleted, caps, before);
            if top && !bulleted {
                lemma_gap(inner, false);
                assert(t =~= inner + gap(false));
            } else {
                assert(t =~= inner);
            }
            lemma_nodes_words_join(own, list_nodes(items, depth + 1), caps, before);
            assert(edges(own) =~= Seq::empty());
            assert(nodes_words(own, caps, before) =~= none);
            assert(none + nodes_words(list_nodes(items, depth + 1), caps, before) =~= nodes_words(
                list_nodes(items, depth + 1),
                caps,
                before,
            ));
        },
        ComponentView::App { app_id, props } => {
            lemma_app_words(app_id, props, pad, bulleted, caps);
            assert(words(component_text(c, pad, top, bulleted, caps, before)) =~= node_words(
                (c, depth),
                caps,
                before,
            ));
        },
    }
    if !(c is Collection) {
        assert(nodes_of(c, depth) =~= own);
        let n = before + edges(own).len();
        assert(none + node_words((c, depth), caps, n) =~= node_words((c, depth), caps, n));
        assert(nodes_words(own, caps, before) =~= node_words((c, depth), caps, n));
    }
}

proof fn lemma_items_words(
    items: Seq<ComponentView>,
    pad: Seq<char>,
    caps: Seq<CapabilityView>,
    before: nat,
    depth: nat,
)
    requires
        blank(pad),
        depth > 0,
    ensures
        words(items_text(items, pad, caps, before)) == nodes_words(
            list_nodes(items, depth),
            caps,
            before,
        ),
        open_ended(items_text(items, pad, caps, before)),
    decreases items,
{
    if items.len() > 0 {
        let front = items.drop_last();
        let last = items.last();
        lemma_items_words(front, pad, caps, before, depth);
        lemma_list_links_are_edges(front, depth);
        let n = before + list_links(front).len();
        assert(list_links(front).len() == edges(list_nodes(front, depth)).len());
        lemma_component_words(last, pad, false, !(last is Collection), caps, n, depth);
        let a = items_text(front, pad, caps, before);
        let b = component_text(last, pad, false, !(last is Collection), caps, n);
        lemma_words_join(a, b);
        lemma_nodes_words_join(list_nodes(front, depth), nodes_of(last, depth), caps, before);
        assert(open_ended(a + b)) by {
            if b.len() > 0 {
                assert((a + b).last() == b.last());
            } else {
                assert(a + b =~= a);
            }
        }
    }
}

proof fn lemma_body_words(items: Seq<ComponentView>, caps: Seq<CapabilityView>)
    ensures
        words(body_text(items, caps)) == nodes_words(list_nodes(items, 0), caps, 0),
        open_ended(body_text(items, caps)),
    decreases items.len(),
{
    if items.len() > 0 {
        let front = items.drop_last();
        let last = items.last();
        lemma_body_words(front, caps);
        lemma_list_links_are_edges(front, 0);
        let n = list_links(front).len();
        assert(n == edges(list_nodes(front, 0)).len());
        lemma_component_words(last, Seq::empty(), true, false, caps, n, 0);
        let a = body_text(front, caps);
        let b = component_text(last, Seq::empty(), true, false, caps, n);
        lemma_words_join(a, b);
        lemma_nodes_words_join(list_nodes(front, 0), nodes_of(last, 0), caps, 0);
        assert(open_ended(a + b)) by {
            if b.len() > 0 {
                assert((a + b).last() == b.last());
            } else {
                assert(a + b =~= a);
            }
        }
    }
}

/// The words of the index lines of links.
spec fn index_words(links: Seq<Seq<char>>) -> Seq<Seq<char>>
    decreases links.len(),
{
    if links.len() == 0 {
        Seq::empty()
    } else {
        index_words(links.drop_last()) + words(
            "["@ + dec_chars(links.len()) + "] "@ + links.last(),
        )
    }
}

proof fn lemma_index_words(links: Seq<Seq<char>>)
    ensures
        words(index_lines(links)) == index_words(links),
        open_ended(index_lines(links)),
    decreases links.len(),
{
    if links.len() > 0 {
        lemma_index_words(links.drop_last());
        reveal_strlit("  [");
        reveal_strlit("[");
        let a = index_lines(links.drop_last());
        let entry = "["@ + dec_chars(links.len()) + "] "@ + links.last();
        let pad = seq![' ', ' '];
        let none = Seq::<char>::empty();
        lemma_words_join(a, pad + entry + seq!['\n']);
        assert(index_lines(links) =~= a + (pad + entry + seq!['\n']));
        lemma_words_behind_blank(pad, entry + seq!['\n']);
        assert(pad + entry + seq!['\n'] =~= pad + (entry + seq!['\n']));
        lemma_words_cut(entry, '\n', none);
        assert(entry.push('\n') + none =~= entry + seq!['\n']);
        assert(words(entry) + words(none) =~= words(entry));
        assert(index_lines(links).last() == '\n');
    }
}

proof fn lemma_nodes_words_flat(
    nodes: Seq<(ComponentView, nat)>,
    caps: Seq<CapabilityView>,
    parts: Seq<Seq<Seq<char>>>,
)
    requires
        parts.len() == nodes.len(),
        forall|i: int|
            0 <= i < nodes.len() ==> #[trigger] parts[i] == node_words(
                nodes[i],
                caps,
                edges(nodes.take(i + 1)).len(),
            ),
    ensures
        nodes_words(nodes, caps, 0) == parts.flatten(),
    decreases nodes.len(),
{
    parts.lemma_flatten_and_flatten_alt_are_equivalent();
    if nodes.len() > 0 {
        let front = nodes.drop_last();
        assert forall|i: int| 0 <= i < front.len() implies #[trigger] parts.drop_last()[i]
            == node_words(front[i], caps, edges(front.take(i + 1)).len()) by {
            assert(front.take(i + 1) =~= nodes.take(i + 1));
            assert(parts[i] == parts.drop_last()[i]);
        }
        lemma_nodes_words_flat(front, caps, parts.drop_last());
        parts.drop_last().lemma_flatten_and_flatten_alt_are_equivalent();
        assert(nodes.take(nodes.len() as int) =~= nodes);
        assert(parts[nodes.len() - 1] == parts.last());
    }
}

proof fn lemma_index_words_flat(links: Seq<Seq<char>>, parts: Seq<Seq<Seq<char>>>)
    requires
        parts.len() == links.len(),
        forall|i: int|
            0 <= i < links.len() ==> #[trigger] parts[i] == words(
                "["@ + dec_chars((i + 1) as nat) + "] "@ + links[i],
            ),
    ensures
        index_words(links) == parts.flatten(),
    decreases links.len(),
{
    parts.lemma_flatten_and_flatten_alt_are_equivalent();
    if links.len() > 0 {
        let front = links.drop_last();
        assert forall|i: int| 0 <= i < front.len() implies #[trigger] parts.drop_last()[i] == words(
            "["@ + dec_chars((i + 1) as nat) + "] "@ + front[i],
        ) by {
            assert(parts[i] == parts.drop_last()[i]);
        }
        lemma_index_words_flat(front, parts.drop_last());
        parts.drop_last().lemma_flatten_and_flatten_alt_are_equivalent();
        assert(parts[links.len() - 1] == parts.last());
    }
}

/// A page shows its title, where it is from, then all of its components in
/// document order, word for word, and last an index of its links. What stands
/// in a collection has a dash before it. The `k`-th link in document order,
/// wherever it stands, is its label followed by `[k]`, and entry `k` of the
/// index is the target of that same link.
pub proof fn law_pages_show_every_component_in_order(p: PageView)
    ensures
        ({
            let nodes = list_nodes(p.components, 0);
            let refs = crate::content::page_references(p);
            let shown = Seq::new(
                nodes.len(),
                |i: int|
                    (if nodes[i].1 > 0 && !(nodes[i].0 is Collection) {
                        seq!["-"@]
                    } else {
                        Seq::<Seq<char>>::empty()
                    }) + match nodes[i].0 {
                        ComponentView::Text { text } => words(text),
                        ComponentView::Heading { level, text } => words(
                            Seq::new(
                                if level < 1 {
                                    1nat
                                } else if level > 6 {
                                    6nat
                                } else {
                                    level as nat
                                },
                                |j: int| '#',
                            ).push(' ') + text,
                        ),
                        ComponentView::Image { content_id, alt } => words(
                            "[image: "@ + alt + " ("@ + content_id + ")]"@,
                        ),
                        ComponentView::Link { label, .. } => words(
                            label + " ["@ + dec_chars(edges(nodes.take(i + 1)).len()) + "]"@,
                        ),
                        ComponentView::Collection { .. } => Seq::<Seq<char>>::empty(),
                        ComponentView::App { app_id, props } => words(
                            "[app:"@ + app_id + "] (not executed)"@,
                        ) + words("requires: "@ + requirements(p.capabilities)) + match props {
                            Some(json) => words("props: "@ + json),
                            None => Seq::<Seq<char>>::empty(),
                        },
                    },
            );
            let index = Seq::new(
                refs.len(),
                |k: int|
                    words(
                        "["@ + dec_chars((k + 1) as nat) + "] "@ + match refs[k].target {
                            TargetView::Page { site, path } => site + "/"@ + path,
                            TargetView::External { hint } => "external: "@ + hint,
                            TargetView::Action { action_id } => "action: "@ + action_id,
                        },
                    ),
            );
            words(page_text(p)) == seq!["#"@] + words(p.title) + words(
                "@"@ + p.site + " /"@ + p.path + "  rev:"@ + dec_chars(p.revision as nat),
            ) + shown.flatten() + (if refs.len() > 0 {
                seq!["Links:"@] + index.flatten()
            } else {
                Seq::<Seq<char>>::empty()
            })
        }),
{
    let nodes = list_nodes(p.components, 0);
    let refs = crate::content::page_references(p);
    let caps = p.capabilities;
    let shown = Seq::new(
        nodes.len(),
        |i: int| node_words(nodes[i], caps, edges(nodes.take(i + 1)).len()),
    );
    lemma_nodes_words_flat(nodes, caps, shown);
    lemma_body_words(p.components, caps);
    law_index_lists_references(p);
    let links = list_links(p.components);
    let index = Seq::new(
        refs.len(),
        |k: int| words("["@ + dec_chars((k + 1) as nat) + "] "@ + links[k]),
    );
    lemma_index_words_flat(links, index);
    lemma_index_words(links);
    // Head.
    let none = Seq::<char>::empty();
    reveal_strlit("# ");
    reveal_strlit("#");
    reveal_strlit("  ");
    reveal_strlit("/");
    reveal_strlit("\n\n");
    assert(is_word("#"@));
    lemma_words_one("#"@);
    lemma_words_cut("#"@, ' ', none);
    assert("#"@.push(' ') + none =~= "# "@);
    assert(words("# "@) =~= seq!["#"@]);
    let title = para(p.title, "# "@, "  "@, WRAP_WIDTH as nat);
    lemma_para_words(p.title, "# "@, "  "@, WRAP_WIDTH as nat);
    let from = "@"@ + p.site + " /"@ + p.path + "  rev:"@ + dec_chars(p.revision as nat);
    let from_line = from + "\n\n"@;
    lemma_words_cut(from, '\n', seq!['\n']);
    lemma_words_cut(none, '\n', none);
    assert(from.push('\n') + seq!['\n'] =~= from_line);
    assert(none.push('\n') + none =~= seq!['\n']);
    assert(words(from) + words(seq!['\n']) =~= words(from));
    lemma_words_join(title, from_line);
    let top = title + from_line;
    assert(top.last() == '\n');
    let body = body_text(p.components, caps);
    lemma_words_join(top, body);
    let upper = top + body;
    assert(open_ended(upper)) by {
        if body.len() > 0 {
            assert(upper.last() == body.last());
        } else {
            assert(upper =~= top);
        }
    }
    lemma_words_join(upper, link_index(links));
    assert(page_text(p) =~= upper + link_index(links));
    if links.len() > 0 {
        reveal_strlit("Links:\n");
        reveal_strlit("Links:");
        assert(is_word("Links:"@));
        lemma_words_one("Links:"@);
        lemma_words_cut("Links:"@, '\n', none);
        assert("Links:"@.push('\n') + none =~= "Links:\n"@);
        assert(words("Links:\n"@) =~= seq!["Links:"@]);
        lemma_words_join("Links:\n"@, index_lines(links));
    } else {
        assert(words(none) =~= Seq::empty());
    }
    // The same parts, written out.
    assert(links.len() == refs.len());
    assert forall|k: int| 0 <= k < refs.len() implies #[trigger] links[k] == match refs[k].target {
        TargetView::Page { site, path } => site + "/"@ + path,
        TargetView::External { hint } => "external: "@ + hint,
        TargetView::Action { action_id } => "action: "@ + action_id,
    } by {
        if let TargetView::Page { site, path } = refs[k].target {
            assert(site.push('/') + path =~= site + "/"@ + path);
        }
    }
    let shown2 = Seq::new(
        nodes.len(),
        |i: int|
            (if nodes[i].1 > 0 && !(nodes[i].0 is Collection) {
                seq!["-"@]
            } else {
                Seq::<Seq<char>>::empty()
            }) + match nodes[i].0 {
                ComponentView::Text { text } => words(text),
                ComponentView::Heading { level, text } => words(
                    Seq::new(
                        if level < 1 {
                            1nat
                        } else if level > 6 {
                            6nat
                        } else {
                            level as nat
                        },
                        |j: int| '#',
                    ).push(' ') + text,
                ),
                ComponentView::Image { content_id, alt } => words(
                    "[image: "@ + alt + " ("@ + content_id + ")]"@,
                ),
                ComponentView::Link { label, .. } => words(
                    label + " ["@ + dec_chars(edges(nodes.take(i + 1)).len()) + "]"@,
                ),
                ComponentView::Collection { .. } => Seq::<Seq<char>>::empty(),
                ComponentView::App { app_id, props } => words(
                    "[app:"@ + app_id + "] (not executed)"@,
                ) + words("requires: "@ + requirements(p.capabilities)) + match props {
                    Some(json) => words("props: "@ + json),
                    None => Seq::<Seq<char>>::empty(),
                },
            },
    );
    assert(shown2 =~= shown) by {
        assert forall|i: int| 0 <= i < nodes.len() implies shown2[i] == shown[i] by {
            if let ComponentView::Heading { level, text } = nodes[i].0 {
                assert(Seq::new(
                    if level < 1 {
                        1nat
                    } else if level > 6 {
                        6nat
                    } else {
                        level as nat
                    },
                    |j: int| '#',
                ) =~= hashes(clamped_level(level)));
            }
        }
    }
    let index2 = Seq::new(
        refs.len(),
        |k: int|
            words(
                "["@ + dec_chars((k + 1) as nat) + "] "@ + match refs[k].target {
                    TargetView::Page { site, path } => site + "/"@ + path,
                    TargetView::External { hint } => "external: "@ + hint,
                    TargetView::Action { action_id } => "action: "@ + action_id,
                },
            ),
    );
    assert(index2 =~= index);
}

proof fn lemma_last_line_grows(s: Seq<char>, t: Seq<char>)
    requires
        forall|i: int| 0 <= i < t.len() ==> #[trigger] t[i] != '\n',
    ensures
        last_line_len(s + t) == last_line_len(s) + t.len(),
    decreases t.len(),
{
    if t.len() == 0 {
        assert(s + t =~= s);
    } else {
        let u = t.drop_last();
        assert forall|i: int| 0 <= i < u.len() implies #[trigger] u[i] != '\n' by {
            assert(u[i] == t[i]);
        }
        lemma_last_line_grows(s, u);
        assert((s + t).drop_last() =~= s + u);
        assert((s + t).last() == t[t.len() - 1]);
    }
}

proof fn lemma_filled_push(
    buf: Seq<char>,
    line: nat,
    ws: Seq<Seq<char>>,
    w: Seq<char>,
    cont: Seq<char>,
    width: nat,
)
    requires
        last_line_len(buf) == line,
        byte_len(cont) == cont.len(),
        forall|i: int| 0 <= i < cont.len() ==> #[trigger] cont[i] != '\n',
        forall|i: int| 0 <= i < ws.len() ==> is_word(#[trigger] ws[i]),
    ensures
        ({
            let p = filled(buf, line, ws, cont, width);
            filled(buf, line, ws.push(w), cont, width) == if last_line_len(p) + 1 + w.len()
                <= width {
                p.push(' ') + w
            } else {
                p.push('\n') + cont + w
            }
        }),
    decreases ws.len(),
{
    let all = ws.push(w);
    if ws.len() == 0 {
        assert(all[0] == w);
        assert(all.skip(1) =~= Seq::empty());
        reveal_with_fuel(filled, 2);
    } else {
        let x = ws[0];
        assert(all[0] == x);
        assert(all.skip(1) =~= ws.skip(1).push(w));
        lemma_no_newline(x);
        assert forall|i: int| 0 <= i < ws.skip(1).len() implies is_word(
            #[trigger] ws.skip(1)[i],
        ) by {
            assert(ws.skip(1)[i] == ws[i + 1]);
        }
        if line + 1 + x.len() <= width {
            let t = seq![' '] + x;
            assert forall|i: int| 0 <= i < t.len() implies #[trigger] t[i] != '\n' by {
                if i > 0 {
                    assert(t[i] == x[i - 1]);
                }
            }
            lemma_last_line_grows(buf, t);
            assert(buf.push(' ') + x =~= buf + t);
            lemma_filled_push(buf.push(' ') + x, line + 1 + x.len(), ws.skip(1), w, cont, width);
        } else {
            let t = cont + x;
            assert forall|i: int| 0 <= i < t.len() implies #[trigger] t[i] != '\n' by {
                if i < cont.len() {
                    assert(t[i] == cont[i]);
                } else {
                    assert(t[i] == x[i - cont.len()]);
                }
            }
            lemma_last_line_grows(buf.push('\n'), t);
            assert(buf.push('\n') + cont + x =~= buf.push('\n') + t);
            lemma_filled_push(
                buf.push('\n') + cont + x,
                byte_len(cont) + x.len(),
                ws.skip(1),
                w,
                cont,
                width,
            );
        }
    }
}

/// Words are wrapped greedily: the first word stands behind the first prefix,
/// and each further one on the same line behind a space where that fits, else
/// on a new line behind the other prefix.
pub proof fn law_wrap_is_greedy(
    text: Seq<char>,
    w: Seq<char>,
    first: Seq<char>,
    cont: Seq<char>,
    width: nat,
)
    requires
        w.len() > 0,
        forall|i: int| 0 <= i < w.len() ==> !is_white(#[trigger] w[i]),
        byte_len(first) == first.len(),
        byte_len(cont) == cont.len(),
        forall|i: int| 0 <= i < first.len() ==> #[trigger] first[i] != '\n',
        forall|i: int| 0 <= i < cont.len() ==> #[trigger] cont[i] != '\n',
        width >= first.len() + 10,
        width >= cont.len() + 10,
    ensures
        words(text).len() == 0 ==> para(text.push(' ') + w, first, cont, width) == (first
            + w).push('\n'),
        words(text).len() > 0 ==> ({
            let p = para(text, first, cont, width).drop_last();
            para(text.push(' ') + w, first, cont, width) == if last_line_len(p) + 1 + w.len()
                <= width {
                (p.push(' ') + w).push('\n')
            } else {
                (p.push('\n') + cont + w).push('\n')
            }
        }),
{
    assert(is_word(w));
    lemma_words_cut(text, ' ', w);
    lemma_words_one(w);
    let ws = words(text);
    let all = words(text.push(' ') + w);
    assert(all =~= ws.push(w));
    if ws.len() == 0 {
        assert(all.skip(1) =~= Seq::empty());
    } else {
        lemma_words_are_words(text);
        assert(all[0] == ws[0]);
        assert(all.skip(1) =~= ws.skip(1).push(w));
        assert forall|i: int| 0 <= i < ws.skip(1).len() implies is_word(
            #[trigger] ws.skip(1)[i],
        ) by {
            assert(ws.skip(1)[i] == ws[i + 1]);
        }
        let t = first + ws[0];
        let none = Seq::<char>::empty();
        assert(is_word(ws[0]));
        lemma_no_newline(ws[0]);
        assert forall|i: int| 0 <= i < t.len() implies #[trigger] t[i] != '\n' by {
            if i < first.len() {
                assert(t[i] == first[i]);
            } else {
                assert(t[i] == ws[0][i - first.len()]);
            }
        }
        lemma_last_line_grows(none, t);
        assert(none + t =~= t);
        lemma_filled_push(t, t.len(), ws.skip(1), w, cont, width);
        assert(para(text, first, cont, width).drop_last() =~= filled(
            t,
            t.len(),
            ws.skip(1),
            cont,
            width,
        ));
    }
}

/// A component at the top of a page starts at the margin and has a blank line
/// behind it. What stands in a collection is a bullet, two columns further in
/// than the collection, and has none; a collection at the top has one behind
/// its last item.
pub proof fn law_collections_are_indented_bullets(
    label: Seq<char>,
    target: TargetView,
    text: Seq<char>,
    items: Seq<ComponentView>,
    more: Seq<ComponentView>,
    pad: Seq<char>,
    caps: Seq<CapabilityView>,
    before: nat,
)
    ensures
        body_text(seq![ComponentView::Text { text }], caps) == para(
            text,
            Seq::empty(),
            Seq::empty(),
            80,
        ).push('\n'),
        items_text(seq![ComponentView::Text { text }], pad, caps, before) == para(
            text,
            pad + "- "@,
            pad + "  "@,
            80,
        ),
        items_text(seq![ComponentView::Link { label, target }], pad, caps, before) == para(
            label + " ["@ + dec_chars(before + 1) + "]"@,
            pad + "- "@,
            pad + "  "@,
            80,
        ),
        items_text(seq![ComponentView::Collection { items }], pad, caps, before) == items_text(
            items,
            pad + "  "@,
            caps,
            before,
        ),
        body_text(seq![ComponentView::Collection { items }], caps) == items_text(
            items,
            "  "@,
            caps,
            0,
        ).push('\n'),
        items_text(items + more, pad, caps, before) == items_text(items, pad, caps, before)
            + items_text(more, pad, caps, before + list_links(items).len()),
{
    reveal_strlit("  ");
    let t = ComponentView::Text { text };
    let l = ComponentView::Link { label, target };
    let c = ComponentView::Collection { items };
    lemma_single(t, pad, caps, before);
    lemma_single(l, pad, caps, before);
    lemma_single(c, pad, caps, before);
    let none = Seq::<char>::empty();
    let w = WRAP_WIDTH as nat;
    assert(para(text, none, none, w) + seq!['\n'] =~= para(text, none, none, w).push('\n'));
    assert(items_text(seq![t], pad, caps, before) =~= para(text, pad + "- "@, pad + "  "@, w));
    assert(items_text(seq![l], pad, caps, before) =~= para(
        label + " ["@ + dec_chars(before + 1) + "]"@,
        pad + "- "@,
        pad + "  "@,
        w,
    ));
    assert(items_text(seq![c], pad, caps, before) =~= items_text(
        items,
        pad + "  "@,
        caps,
        before,
    ));
    assert(none + "  "@ =~= "  "@);
    assert(body_text(seq![c], caps) =~= items_text(items, "  "@, caps, 0).push('\n'));
    lemma_items_join(items, more, pad, caps, before);
}

proof fn lemma_single(
    c: ComponentView,
    pad: Seq<char>,
    caps: Seq<CapabilityView>,
    before: nat,
)
    ensures
        items_text(seq![c], pad, caps, before) == component_text(
            c,
            pad,
            false,
            !(c is Collection),
            caps,
            before,
        ),
        body_text(seq![c], caps) == component_text(c, Seq::empty(), true, false, caps, 0),
{
    let one = seq![c];
    assert(one.drop_last() =~= Seq::empty());
    reveal_with_fuel(items_text, 2);
    reveal_with_fuel(body_text, 2);
    reveal_with_fuel(list_links, 2);
    let x = component_text(c, pad, false, !(c is Collection), caps, before);
    let y = component_text(c, Seq::empty(), true, false, caps, 0);
    assert(Seq::<char>::empty() + x =~= x);
    assert(Seq::<char>::empty() + y =~= y);
}

proof fn lemma_list_links_join(a: Seq<ComponentView>, b: Seq<ComponentView>)
    ensures
        list_links(a + b) == list_links(a) + list_links(b),
    decreases b.len(),
{
    if b.len() == 0 {
        assert(a + b =~= a);
        assert(list_links(a) + list_links(b) =~= list_links(a));
    } else {
        lemma_list_links_join(a, b.drop_last());
        assert((a + b).drop_last() =~= a + b.drop_last());
        assert((a + b).last() == b.last());
        assert(list_links(a + b) =~= list_links(a) + list_links(b));
    }
}

proof fn lemma_items_join(
    a: Seq<ComponentView>,
    b: Seq<ComponentView>,
    pad: Seq<char>,
    caps: Seq<CapabilityView>,
    before: nat,
)
    ensures
        items_text(a + b, pad, caps, before) == items_text(a, pad, caps, before) + items_text(
            b,
            pad,
            caps,
            before + list_links(a).len(),
        ),
    decreases b.len(),
{
    if b.len() == 0 {
        assert(a + b =~= a);
        assert(items_text(a, pad, caps, before) + Seq::<char>::empty() =~= items_text(
            a,
            pad,
            caps,
            before,
        ));
    } else {
        let front = b.drop_last();
        lemma_items_join(a, front, pad, caps, before);
        lemma_list_links_join(a, front);
        assert((a + b).drop_last() =~= a + front);
        assert((a + b).last() == b.last());
        assert(items_text(a + b, pad, caps, before) =~= items_text(a, pad, caps, before)
            + items_text(b, pad, caps, before + list_links(a).len()));
    }
}

/// An app lists every capability of its page, in order, each by its own name:
/// storage with its size, the network with its hosts.
pub proof fn law_requirements_name_every_capability(
    caps: Seq<CapabilityView>,
    cap: CapabilityView,
)
    ensures
        requirements(Seq::empty()) == "none"@,
        ({
            let name = match cap {
                CapabilityView::Storage { max_kb } => "storage("@ + dec_chars(max_kb as nat)
                    + "KB)"@,
                CapabilityView::Network { hosts } => if hosts.len() == 0 {
                    "network(none)"@
                } else {
                    "network("@ + joined(hosts, ","@) + ")"@
                },
                CapabilityView::Notify => "notify"@,
                CapabilityView::Audio => "audio"@,
                CapabilityView::Camera => "camera"@,
                CapabilityView::Microphone => "microphone"@,
            };
            requirements(caps.push(cap)) == if caps.len() == 0 {
                name
            } else {
                requirements(caps) + ", "@ + name
            }
        }),
{
    let all = Seq::new(caps.push(cap).len(), |i: int| capability_text(caps.push(cap)[i]));
    let front = Seq::new(caps.len(), |i: int| capability_text(caps[i]));
    assert(all.drop_last() =~= front);
    assert(all.last() == capability_text(cap));
}

/// Texts are joined in order, with the separator between any two.
pub proof fn law_joined_texts(parts: Seq<Seq<char>>, part: Seq<char>, sep: Seq<char>)
    ensures
        joined(Seq::empty(), sep) == Seq::<char>::empty(),
        joined(seq![part], sep) == part,
        parts.len() > 0 ==> joined(parts.push(part), sep) == joined(parts, sep) + sep + part,
{
    assert(parts.push(part).drop_last() =~= parts);
}

/// A page is its title, a line that says where it stands and in which
/// revision, its components, and, where it has links, the list of them.
pub proof fn law_page_layout(p: PageView, links: Seq<Seq<char>>, link: Seq<char>)
    ensures
        page_text(p) == para(p.title, "# "@, "  "@, 80) + "@"@ + p.site + " /"@ + p.path
            + "  rev:"@ + dec_chars(p.revision as nat) + "\n\n"@ + body_text(
            p.components,
            p.capabilities,
        ) + link_index(list_links(p.components)),
        link_index(Seq::empty()) == Seq::<char>::empty(),
        links.len() == 0 ==> link_index(links.push(link)) == "Links:\n"@ + "  ["@ + dec_chars(1)
            + "] "@ + link + "\n"@,
        links.len() > 0 ==> link_index(links.push(link)) == link_index(links) + "  ["@ + dec_chars(
            links.len() + 1,
        ) + "] "@ + link + "\n"@,
{
    reveal_strlit("\n");
    let all = links.push(link);
    assert(all.drop_last() =~= links);
    let line = "  ["@ + dec_chars(all.len()) + "] "@ + link + "\n"@;
    assert(index_lines(all) =~= index_lines(links) + line);
    if links.len() == 0 {
        assert(link_index(all) =~= "Links:\n"@ + "  ["@ + dec_chars(1) + "] "@ + link + "\n"@);
    } else {
        assert(link_index(all) =~= link_index(links) + "  ["@ + dec_chars(links.len() + 1) + "] "@
            + link + "\n"@);
    }
}

/// Components stand below each other, each at the margin with a blank line
/// after it: headings under their hashes, images by their description and
/// content, links by their label and number, and applications with what they
/// need.
pub proof fn law_blocks_stand_apart(
    items: Seq<ComponentView>,
    c: ComponentView,
    caps: Seq<CapabilityView>,
)
    ensures
        body_text(Seq::empty(), caps) == Seq::<char>::empty(),
        ({
            let none = Seq::<char>::empty();
            body_text(items.push(c), caps) == body_text(items, caps) + match c {
                ComponentView::Text { text } => para(text, none, none, 80) + "\n"@,
                ComponentView::Heading { level, text } => para(
                    Seq::new(
                        if level < 1 {
                            1nat
                        } else if level > 6 {
                            6nat
                        } else {
                            level as nat
                        },
                        |j: int| '#',
                    ) + " "@ + text,
                    none,
                    none,
                    80,
                ) + "\n"@,
                ComponentView::Image { content_id, alt } => para(
                    "[image: "@ + alt + " ("@ + content_id + ")]"@,
                    none,
                    none,
                    80,
                ) + "\n"@,
                ComponentView::Link { label, .. } => para(
                    label + " ["@ + dec_chars(list_links(items).len() + 1) + "]"@,
                    none,
                    none,
                    80,
                ) + "\n"@,
                ComponentView::Collection { items: inner } => items_text(
                    inner,
                    "  "@,
                    caps,
                    list_links(items).len(),
                ) + "\n"@,
                ComponentView::App { app_id, props } => para(
                    "[app:"@ + app_id + "] (not executed)"@,
                    none,
                    none,
                    80,
                ) + para("requires: "@ + requirements(caps), "  "@, "  "@, 80) + (match props {
                    Some(json) => para("props: "@ + json, "  "@, "  "@, 80),
                    None => none,
                }) + "\n"@,
            }
        }),
{
    reveal_strlit("\n");
    reveal_strlit(" ");
    let all = items.push(c);
    let none = Seq::<char>::empty();
    assert(all.drop_last() =~= items);
    assert(none + "  "@ =~= "  "@);
    assert("\n"@ =~= seq!['\n']);
    match c {
        ComponentView::Heading { level, text } => {
            assert(hashes(clamped_level(level)).push(' ') + text =~= Seq::new(
                if level < 1 {
                    1nat
                } else if level > 6 {
                    6nat
                } else {
                    level as nat
                },
                |j: int| '#',
            ) + " "@ + text);
        },
        _ => {},
    }
}

/// In a collection every component is a bullet of its own, indented, without
/// blank lines; what an application needs stands below its bullet.
pub proof fn law_bullets(
    level: u8,
    text: Seq<char>,
    id: Seq<char>,
    props: Option<Seq<char>>,
    pad: Seq<char>,
    caps: Seq<CapabilityView>,
    before: nat,
)
    ensures
        1 <= level <= 6 ==> items_text(
            seq![ComponentView::Heading { level, text }],
            pad,
            caps,
            before,
        ) == para(
            Seq::new(level as nat, |j: int| '#') + " "@ + text,
            pad + "- "@,
            pad + "  "@,
            80,
        ),
        items_text(
            seq![ComponentView::Image { content_id: id, alt: text }],
            pad,
            caps,
            before,
        ) == para("[image: "@ + text + " ("@ + id + ")]"@, pad + "- "@, pad + "  "@, 80),
        items_text(seq![ComponentView::App { app_id: id, props }], pad, caps, before) == para(
            "[app:"@ + id + "] (not executed)"@,
            pad + "- "@,
            pad + "  "@,
            80,
        ) + para("requires: "@ + requirements(caps), pad + "    "@, pad + "    "@, 80) + (
        match props {
            Some(json) => para("props: "@ + json, pad + "    "@, pad + "    "@, 80),
            None => Seq::<char>::empty(),
        }),
{
    reveal_strlit(" ");
    reveal_strlit("  ");
    reveal_strlit("    ");
    assert(pad + "  "@ + "  "@ =~= pad + "    "@);
    assert(hashes(level as nat).push(' ') + text =~= Seq::new(level as nat, |j: int| '#') + " "@
        + text);
    let heading = ComponentView::Heading { level, text };
    let image = ComponentView::Image { content_id: id, alt: text };
    let app = ComponentView::App { app_id: id, props };
    lemma_one_item(heading, pad, caps, before);
    lemma_one_item(image, pad, caps, before);
    lemma_one_item(app, pad, caps, before);
    assert(gap(true) =~= Seq::<char>::empty());
    assert(component_text(app, pad, false, true, caps, before) =~= para(
        "[app:"@ + id + "] (not executed)"@,
        pad + "- "@,
        pad + "  "@,
        80,
    ) + para("requires: "@ + requirements(caps), pad + "    "@, pad + "    "@, 80) + (match props {
        Some(json) => para("props: "@ + json, pad + "    "@, pad + "    "@, 80),
        None => Seq::<char>::empty(),
    }));
    assert(component_text(image, pad, false, true, caps, before) =~= para(
        "[image: "@ + text + " ("@ + id + ")]"@,
        pad + "- "@,
        pad + "  "@,
        80,
    ));
    if 1 <= level <= 6 {
        assert(component_text(heading, pad, false, true, caps, before) =~= para(
            hashes(level as nat).push(' ') + text,
            pad + "- "@,
            pad + "  "@,
            80,
        ));
    }
}

/// A list of one item is that item's bullet.
proof fn lemma_one_item(
    c: ComponentView,
    pad: Seq<char>,
    caps: Seq<CapabilityView>,
    before: nat,
)
    ensures
        items_text(seq![c], pad, caps, before) == component_text(
            c,
            pad,
            false,
            !(c is Collection),
            caps,
            before,
        ),
{
    let items = seq![c];
    assert(items.drop_last() =~= Seq::<ComponentView>::empty());
    assert(list_links(items.drop_last()).len() == 0);
    let text = component_text(c, pad, false, !(c is Collection), caps, before);
    assert(items_text(items.drop_last(), pad, caps, before) =~= Seq::<char>::empty());
    assert(items_text(items, pad, caps, before) =~= Seq::<char>::empty() + text);
}

/// A line has room for ten characters after its prefix, however narrow the
/// width is that was asked for.
pub proof fn law_narrow_widths_leave_room(
    text: Seq<char>,
    first: Seq<char>,
    cont: Seq<char>,
    width: nat,
)
    ensures
        used_width(first, cont, width) >= width,
        used_width(first, cont, width) >= byte_len(first) + 10,
        used_width(first, cont, width) >= byte_len(cont) + 10,
        width >= byte_len(first) + 10 && width >= byte_len(cont) + 10 ==> used_width(
            first,
            cont,
            width,
        ) == width,
        para(text, first, cont, used_width(first, cont, width)) == para(text, first, cont, width),
        words(text).len() == 0 ==> para(text, first, cont, width) == trim_end(first) + "\n"@,
{
    reveal_strlit("\n");
    if words(text).len() == 0 {
        assert(para(text, first, cont, width) =~= trim_end(first) + "\n"@);
    }
}

} // verus!
