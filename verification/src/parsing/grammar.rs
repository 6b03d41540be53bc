use vstd::prelude::*;
use crate::ast::{Attribute, Component, Content, ControlTag, HTMLTag};
use crate::parsing::content::{command_group_at, text_stop};
use crate::parsing::control_tag::{closing_marker_at, first_in_token, stop_spec, StopKind};
use crate::parsing::html_tag::{
    attr_view, attrs_parse, gt_at, self_close_at, toggle_literal_msg, AttrView,
};
use crate::parsing::utils::{
    closing_tag_at, else_branch_at, else_if_branch_at, ident_text, name_from,
};
use crate::parsing::{missing_closing_command_message, missing_closing_tag_message, ParseError};
use crate::tokens::{group_inner, payload_src, Delim, Spacing, Token};

verus! {

/// The outcome of one grammar rule: a result with the position after it,
/// or a diagnostic with its message and anchor position.  The executable
/// parsers are proved to return exactly these outcomes.
#[verifier::ext_equal]
pub enum Parsed<T> {
    Found(T, int),
    Failed(Seq<char>, int),
}

/// Prepend one parsed item to the rest of a collection rule.
pub open spec fn prepend<T>(head: T, rest: Parsed<Seq<T>>) -> Parsed<Seq<T>> {
    match rest {
        Parsed::Found(s, e) => Parsed::Found(seq![head] + s, e),
        Parsed::Failed(m, p) => Parsed::Failed(m, p),
    }
}

/// Prepend a whole run of already-parsed items.
pub open spec fn gather<T>(acc: Seq<T>, rest: Parsed<Seq<T>>) -> Parsed<Seq<T>> {
    match rest {
        Parsed::Found(s, e) => Parsed::Found(acc + s, e),
        Parsed::Failed(m, p) => Parsed::Failed(m, p),
    }
}

/// Moving one item from the rule's remainder into the accumulated run.
pub proof fn lemma_gather_step<T>(acc: Seq<T>, head: T, rest: Parsed<Seq<T>>)
    ensures
        gather(acc, prepend(head, rest)) == gather(acc.push(head), rest),
{
    match rest {
        Parsed::Found(s, e) => {
            assert(acc + (seq![head] + s) =~= acc.push(head) + s);
        },
        Parsed::Failed(_, _) => {},
    }
}

/// An accumulated run with nothing left to read.
pub proof fn lemma_gather_done<T>(acc: Seq<T>, e: int)
    ensures
        gather(acc, Parsed::Found(Seq::<T>::empty(), e)) == Parsed::<Seq<T>>::Found(acc, e),
{
    assert(acc + Seq::<T>::empty() =~= acc);
}

/// Starting a run from nothing.
pub proof fn lemma_gather_empty<T>(rest: Parsed<Seq<T>>)
    ensures
        gather(Seq::<T>::empty(), rest) == rest,
{
    match rest {
        Parsed::Found(s, e) => {
            assert(Seq::<T>::empty() + s =~= s);
        },
        Parsed::Failed(_, _) => {},
    }
}


/// Normalized literal text read from `i` to the next stop, or the position
/// of a stray non-brace group.
pub open spec fn sp_text(ts: Seq<Token>, i: int, first: bool) -> Parsed<Seq<char>>
    decreases ts.len() - i,
{
    if i < 0 || i >= ts.len() {
        Parsed::Found(Seq::<char>::empty(), i)
    } else {
        match ts[i] {
            Token::Punct(c, sp) => {
                if c == '<' {
                    Parsed::Found(Seq::<char>::empty(), i)
                } else {
                    let sep = if sp == Spacing::Alone && i + 1 < ts.len() && ts[i + 1]
                        is Punct {
                        seq![' ']
                    } else {
                        Seq::<char>::empty()
                    };
                    match sp_text(ts, i + 1, false) {
                        Parsed::Found(rest, j) => Parsed::Found(seq![c] + sep + rest, j),
                        Parsed::Failed(m, q) => Parsed::Failed(m, q),
                    }
                }
            },
            Token::Group(d, _) => {
                if d == Delim::Brace {
                    Parsed::Found(Seq::<char>::empty(), i)
                } else {
                    Parsed::Failed("Unexpected group in text"@, i)
                }
            },
            Token::Ident(s) => {
                match sp_text(ts, i + 1, false) {
                    Parsed::Found(rest, j) => Parsed::Found(
                        (if first {
                            s@
                        } else {
                            seq![' '] + s@
                        }) + rest,
                        j,
                    ),
                    Parsed::Failed(m, q) => Parsed::Failed(m, q),
                }
            },
            Token::Literal(s) => {
                match sp_text(ts, i + 1, false) {
                    Parsed::Found(rest, j) => Parsed::Found(
                        (if first {
                            s@
                        } else {
                            seq![' '] + s@
                        }) + rest,
                        j,
                    ),
                    Parsed::Failed(m, q) => Parsed::Failed(m, q),
                }
            },
        }
    }
}

/// Raw markup after the `@` marker: the fixed `html` keyword, then a group
/// whose payload is inserted unescaped; a misspelling names the expected
/// spelling.
pub open spec fn sp_raw(ts: Seq<Token>, i: int) -> Parsed<ContentView> {
    if ts.len() - i < 2 {
        Parsed::Failed("Expected an identifier"@, i + 1)
    } else if !(ts[i + 1] is Ident) {
        Parsed::Failed("Expected an identifier"@, i + 1)
    } else if ident_text(ts[i + 1]) != "html"@ {
        Parsed::Failed("Did you mean `html`?"@, i + 1)
    } else if ts.len() - i < 3 {
        Parsed::Failed("Expected a group"@, i + 2)
    } else {
        match ts[i + 2] {
            Token::Group(_, inner) => Parsed::Found(
                ContentView::RawV(payload_src(inner@)),
                i + 3,
            ),
            _ => Parsed::Failed("Expected a group"@, i + 2),
        }
    }
}

/// The kind and head payloads of a `{#…}` command group: the keyword after
/// `#`, and for a loop the split of its head on the first bare `in`.
pub open spec fn sp_command(ts: Seq<Token>) -> CommandParsed {
    if ts.len() < 2 {
        CommandParsed::CmdErr("Unknown command tag, must be: 'for', 'if' or 'match'"@)
    } else if !(ts[0] matches Token::Punct(c, _) && c == '#') {
        CommandParsed::CmdErr("Unknown command tag, must be: 'for', 'if' or 'match'"@)
    } else if !(ts[1] is Ident) {
        CommandParsed::CmdErr("Unknown command tag, must be: 'for', 'if' or 'match'"@)
    } else if ident_text(ts[1]) == "for"@ {
        match first_in_token(ts, 2) {
            None => CommandParsed::CmdErr("No `in` found in for loop "@),
            Some(k) => {
                if k + 1 >= ts.len() {
                    CommandParsed::CmdErr("Empty right side of `in`."@)
                } else {
                    CommandParsed::CmdFor(
                        payload_src(ts.subrange(2, k)),
                        payload_src(ts.subrange(k + 1, ts.len() as int)),
                    )
                }
            },
        }
    } else if ident_text(ts[1]) == "match"@ {
        if ts.len() <= 2 {
            CommandParsed::CmdErr("No variable to match against."@)
        } else {
            CommandParsed::CmdMatch(payload_src(ts.subrange(2, ts.len() as int)))
        }
    } else if ident_text(ts[1]) == "if"@ {
        if ts.len() <= 2 {
            CommandParsed::CmdErr("If statement is empty."@)
        } else {
            CommandParsed::CmdIf(payload_src(ts.subrange(2, ts.len() as int)))
        }
    } else {
        CommandParsed::CmdErr("Unknown command tag, must be: 'for', 'if' or 'match'"@)
    }
}

/// The keyword a content-run boundary belongs to, for diagnostics.
pub open spec fn stop_kind_tag(kind: StopKind) -> Seq<char> {
    match kind {
        StopKind::LoopEnd => "for"@,
        StopKind::IfBranch => "if"@,
        StopKind::IfEnd => "if"@,
        StopKind::MatchCaseOrEnd => "match"@,
    }
}

/// One content node read at `i`, dispatched on its first token.  In every
/// collection rule below, a recursion guard turns a non-advancing position
/// into a failure; content parsing always advances, so the guards only
/// discharge termination.
pub open spec fn sp_content(ts: Seq<Token>, i: int) -> Parsed<ContentView>
    decreases ts.len() - i, 6nat,
{
    if i < 0 || i >= ts.len() {
        Parsed::Failed("No tokens left to parse"@, i)
    } else if ts[i] matches Token::Punct(c, _) && c == '<' {
        match sp_html(ts, i) {
            Parsed::Found(tv, j) => Parsed::Found(ContentView::TagV(tv), j),
            Parsed::Failed(m, q) => Parsed::Failed(m, q),
        }
    } else if ts[i] matches Token::Punct(c, _) && c == '@' {
        sp_raw(ts, i)
    } else if command_group_at(ts, i) {
        match sp_control(ts, i) {
            Parsed::Found(cv, j) => Parsed::Found(ContentView::ControlV(cv), j),
            Parsed::Failed(m, q) => Parsed::Failed(m, q),
        }
    } else if ts[i] matches Token::Group(d, _) && d == Delim::Brace {
        Parsed::Found(ContentView::ExprV(payload_src(group_inner(ts[i]))), i + 1)
    } else {
        match sp_text(ts, i, true) {
            Parsed::Found(txt, j) => Parsed::Found(ContentView::LitV(txt), j),
            Parsed::Failed(m, q) => Parsed::Failed(m, q),
        }
    }
}

/// One element read at `i`: `<`, its name, its attribute list, then either
/// `/>` or `>` followed by children up to the matching closing tag, which
/// must name the same element; an element left open fails at its opening
/// bracket.
pub open spec fn sp_html(ts: Seq<Token>, i: int) -> Parsed<TagView>
    decreases ts.len() - i, 5nat,
{
    if i < 0 || i >= ts.len() {
        Parsed::Failed("No tokens left to parse"@, i)
    } else if !(ts[i] matches Token::Punct(c, _) && c == '<') {
        Parsed::Failed("Expected `<`"@, i)
    } else if !(i + 1 < ts.len() && ts[i + 1] is Ident) {
        Parsed::Failed("Expected an html like <p> or <custom-element>"@, i + 1)
    } else {
        let nm = name_from(ts, i + 1);
        match attrs_parse(ts, nm.1) {
            Parsed::Failed(m, q) => Parsed::Failed(m, q),
            Parsed::Found(avs, e) => {
                if self_close_at(ts, e) {
                    Parsed::Found(
                        TagView {
                            tag: nm.0,
                            attributes: avs,
                            children: Seq::<ContentView>::empty(),
                            is_self_closing: true,
                        },
                        e + 2,
                    )
                } else if e <= i {
                    Parsed::Failed("No tokens left to parse"@, e)
                } else if e + 1 >= ts.len() {
                    Parsed::Failed(missing_closing_tag_message(nm.0), i)
                } else {
                    match sp_children(ts, e + 1, nm.0, i) {
                        Parsed::Failed(m, q) => Parsed::Failed(m, q),
                        Parsed::Found(kids, q) => Parsed::Found(
                            TagView {
                                tag: nm.0,
                                attributes: avs,
                                children: kids,
                                is_self_closing: false,
                            },
                            name_from(ts, q + 2).1 + 1,
                        ),
                    }
                }
            },
        }
    }
}

/// The children of an element, up to its matching closing tag.  A closing
/// tag for some other element, or running out of input, fails at the
/// element's opening bracket.
pub open spec fn sp_children(ts: Seq<Token>, p: int, tag: Seq<char>, open_pos: int) -> Parsed<
    Seq<ContentView>,
>
    decreases ts.len() - p, 7nat,
{
    if closing_tag_at(ts, p, tag) {
        Parsed::Found(Seq::<ContentView>::empty(), p)
    } else if p + 1 < ts.len() && (ts[p] matches Token::Punct(c, _) && c == '<') && (
    ts[p + 1] matches Token::Punct(c, _) && c == '/') {
        Parsed::Failed(missing_closing_tag_message(tag), open_pos)
    } else {
        match sp_content(ts, p) {
            Parsed::Failed(m, q) => Parsed::Failed(m, q),
            Parsed::Found(c, q) => {
                if q >= ts.len() {
                    Parsed::Failed(missing_closing_tag_message(tag), open_pos)
                } else if q <= p {
                    Parsed::Failed("No tokens left to parse"@, q)
                } else {
                    prepend(c, sp_children(ts, q, tag, open_pos))
                }
            },
        }
    }
}

/// One control construct read at `i`: its command group decoded, then its
/// body parsed by kind.
pub open spec fn sp_control(ts: Seq<Token>, i: int) -> Parsed<ControlView>
    decreases ts.len() - i, 5nat,
{
    if i < 0 || i >= ts.len() {
        Parsed::Failed("No tokens left to parse"@, i)
    } else if !(ts[i] matches Token::Group(d, _) && d == Delim::Brace) {
        Parsed::Failed("Expected a group"@, i)
    } else {
        match sp_command(group_inner(ts[i])) {
            CommandParsed::CmdErr(m) => Parsed::Failed(m, i),
            CommandParsed::CmdFor(l, r) => sp_for_body(ts, i + 1, i, l, r),
            CommandParsed::CmdIf(st) => sp_if_body(ts, i + 1, i, st),
            CommandParsed::CmdMatch(st) => sp_match_body(ts, i + 1, i, st),
        }
    }
}

/// Content collected up to a construct boundary; running out of input
/// fails with the construct's missing-closing diagnostic at its opening
/// marker.
pub open spec fn sp_until(ts: Seq<Token>, from: int, open_pos: int, kind: StopKind) -> Parsed<
    Seq<ContentView>,
>
    decreases ts.len() - from, 8nat,
{
    if stop_spec(kind, ts, from) {
        Parsed::Found(Seq::<ContentView>::empty(), from)
    } else {
        match sp_content(ts, from) {
            Parsed::Failed(m, q) => Parsed::Failed(m, q),
            Parsed::Found(c, q) => {
                if q >= ts.len() {
                    Parsed::Failed(
                        missing_closing_command_message(stop_kind_tag(kind)),
                        open_pos,
                    )
                } else if q <= from {
                    Parsed::Failed("No tokens left to parse"@, q)
                } else {
                    prepend(c, sp_until(ts, q, open_pos, kind))
                }
            },
        }
    }
}

/// Where a missing closing marker is reported: at the group that failed to
/// close the construct, or at the opening marker when no group is there.
pub open spec fn closing_anchor(ts: Seq<Token>, q: int, open_pos: int) -> int {
    if 0 <= q < ts.len() && ts[q] is Group {
        q
    } else {
        open_pos
    }
}

/// A loop body up to `{/for}`, then the required closing marker.
pub open spec fn sp_for_body(ts: Seq<Token>, from: int, open_pos: int, l: Seq<char>, r: Seq<
    char,
>) -> Parsed<ControlView>
    decreases ts.len() - from, 9nat,
{
    match sp_until(ts, from, open_pos, StopKind::LoopEnd) {
        Parsed::Failed(m, q) => Parsed::Failed(m, q),
        Parsed::Found(kids, q) => {
            if closing_marker_at(ts, q, "for"@) {
                Parsed::Found(
                    ControlView::ForV { left_side: l, right_side: r, contents: kids },
                    q + 1,
                )
            } else {
                Parsed::Failed(
                    missing_closing_command_message("for"@),
                    closing_anchor(ts, q, open_pos),
                )
            }
        },
    }
}

/// The else-if branches of a conditional, each condition the marker
/// group's payload after `:`, `else`, `if`, collected in source order.
pub open spec fn sp_chain(ts: Seq<Token>, q: int, open_pos: int) -> Parsed<
    Seq<(Seq<char>, Seq<ContentView>)>,
>
    decreases ts.len() - q, 8nat,
{
    if else_if_branch_at(ts, q) {
        let inner = group_inner(ts[q]);
        let stmt = payload_src(inner.subrange(3, inner.len() as int));
        match sp_until(ts, q + 1, open_pos, StopKind::IfBranch) {
            Parsed::Failed(m, p) => Parsed::Failed(m, p),
            Parsed::Found(body, q2) => {
                if q2 <= q || q2 > ts.len() {
                    Parsed::Failed("No tokens left to parse"@, q2)
                } else {
                    prepend((stmt, body), sp_chain(ts, q2, open_pos))
                }
            },
        }
    } else {
        Parsed::Found(Seq::<(Seq<char>, Seq<ContentView>)>::empty(), q)
    }
}

/// A conditional's body: the if branch up to the first boundary, the
/// else-if chain in order, at most one else body, then the required
/// `{/if}`.
pub open spec fn sp_if_body(ts: Seq<Token>, from: int, open_pos: int, st: Seq<char>) -> Parsed<
    ControlView,
>
    decreases ts.len() - from, 9nat,
{
    match sp_until(ts, from, open_pos, StopKind::IfBranch) {
        Parsed::Failed(m, q) => Parsed::Failed(m, q),
        Parsed::Found(ifc, q) => {
            if q < from || q > ts.len() {
                Parsed::Failed("No tokens left to parse"@, q)
            } else {
                match sp_chain(ts, q, open_pos) {
                Parsed::Failed(m, p) => Parsed::Failed(m, p),
                Parsed::Found(chain, q2) => {
                    if q2 < from {
                        Parsed::Failed("No tokens left to parse"@, q2)
                    } else if else_branch_at(ts, q2) {
                        match sp_until(ts, q2 + 1, open_pos, StopKind::IfEnd) {
                            Parsed::Failed(m, p) => Parsed::Failed(m, p),
                            Parsed::Found(eb, q3) => {
                                if closing_marker_at(ts, q3, "if"@) {
                                    Parsed::Found(
                                        ControlView::IfChainV {
                                            if_statement: st,
                                            if_content: ifc,
                                            if_else_chain: chain,
                                            else_content: Some(eb),
                                        },
                                        q3 + 1,
                                    )
                                } else {
                                    Parsed::Failed(
                                        missing_closing_command_message("if"@),
                                        closing_anchor(ts, q3, open_pos),
                                    )
                                }
                            },
                        }
                    } else {
                        if closing_marker_at(ts, q2, "if"@) {
                            Parsed::Found(
                                ControlView::IfChainV {
                                    if_statement: st,
                                    if_content: ifc,
                                    if_else_chain: chain,
                                    else_content: None,
                                },
                                q2 + 1,
                            )
                        } else {
                            Parsed::Failed(
                                missing_closing_command_message("if"@),
                                closing_anchor(ts, q2, open_pos),
                            )
                        }
                    }
                },
                }
            }
        },
    }
}

/// The cases of a match: any group not closing the match opens a case,
/// its pattern the group's payload after the first two tokens, its body
/// collected up to the next case or the closer, anchored at the case
/// marker.
pub open spec fn sp_cases(ts: Seq<Token>, q: int, open_pos: int) -> Parsed<
    Seq<(Seq<char>, Seq<ContentView>)>,
>
    decreases ts.len() - q, 8nat,
{
    if crate::parsing::utils::close_command_at(ts, q, "match"@) {
        Parsed::Found(Seq::<(Seq<char>, Seq<ContentView>)>::empty(), q)
    } else if q < 0 || q >= ts.len() {
        Parsed::Failed(missing_closing_command_message("match"@), open_pos)
    } else if !crate::parsing::utils::case_statement_at(ts, q) {
        Parsed::Failed("Expected a case statement like `{:case pattern}`"@, q)
    } else {
        let inner = group_inner(ts[q]);
        let start = if inner.len() < 2 {
            inner.len() as int
        } else {
            2
        };
        let stmt = payload_src(inner.subrange(start, inner.len() as int));
        match sp_until(ts, q + 1, q, StopKind::MatchCaseOrEnd) {
            Parsed::Failed(m, p) => Parsed::Failed(m, p),
            Parsed::Found(body, q2) => {
                if q2 <= q || q2 > ts.len() {
                    Parsed::Failed("No tokens left to parse"@, q2)
                } else {
                    prepend((stmt, body), sp_cases(ts, q2, open_pos))
                }
            },
        }
    }
}

/// A match's body: its cases in source order, then the required
/// `{/match}`.
pub open spec fn sp_match_body(ts: Seq<Token>, from: int, open_pos: int, st: Seq<
    char,
>) -> Parsed<ControlView>
    decreases ts.len() - from, 9nat,
{
    match sp_cases(ts, from, open_pos) {
        Parsed::Failed(m, q) => Parsed::Failed(m, q),
        Parsed::Found(cases, q) => {
            if closing_marker_at(ts, q, "match"@) {
                Parsed::Found(
                    ControlView::MatchV { match_statement: st, cases },
                    q + 1,
                )
            } else {
                Parsed::Failed(
                    missing_closing_command_message("match"@),
                    closing_anchor(ts, q, open_pos),
                )
            }
        },
    }
}

/// An unterminated control construct fails with the missing-closing
/// diagnostic anchored at its opening marker, never at the point of
/// exhaustion: when the content before the boundary runs to the end of the
/// input, the collection rule reports the construct that was left open.
pub proof fn lemma_unterminated_construct(ts: Seq<Token>, from: int, open_pos: int, kind: StopKind)
    requires
        !stop_spec(kind, ts, from),
        sp_content(ts, from) matches Parsed::Found(c, q) && q >= ts.len(),
    ensures
        sp_until(ts, from, open_pos, kind) == Parsed::<Seq<ContentView>>::Failed(
            missing_closing_command_message(stop_kind_tag(kind)),
            open_pos,
        ),
{
}

/// An element left open fails the same way: when a child's parse runs to
/// the end of the input before the matching closing tag, the element is
/// reported as unterminated at its opening bracket.
pub proof fn lemma_unterminated_element(ts: Seq<Token>, p: int, tag: Seq<char>, open_pos: int)
    requires
        !closing_tag_at(ts, p, tag),
        !(p + 1 < ts.len() && (ts[p] matches Token::Punct(c, _) && c == '<') && (
        ts[p + 1] matches Token::Punct(c, _) && c == '/')),
        sp_content(ts, p) matches Parsed::Found(c, q) && q >= ts.len(),
    ensures
        sp_children(ts, p, tag, open_pos) == Parsed::<Seq<ContentView>>::Failed(
            missing_closing_tag_message(tag),
            open_pos,
        ),
{
}

/// A whole template: content nodes left to right until the stream is
/// exhausted; the first failing node aborts with exactly its diagnostic.
pub open spec fn sp_items(ts: Seq<Token>, p: int) -> Parsed<Seq<ContentView>>
    decreases ts.len() - p, 7nat,
{
    if p >= ts.len() {
        Parsed::Found(Seq::<ContentView>::empty(), p)
    } else {
        match sp_content(ts, p) {
            Parsed::Failed(m, q) => Parsed::Failed(m, q),
            Parsed::Found(c, q) => {
                if q <= p || q > ts.len() {
                    Parsed::Failed("No tokens left to parse"@, q)
                } else {
                    prepend(c, sp_items(ts, q))
                }
            },
        }
    }
}

/// A whole template read from the start of the stream.
pub open spec fn sp_component(ts: Seq<Token>) -> Parsed<Seq<ContentView>> {
    sp_items(ts, 0)
}

/// The shape of a parsed node, over plain values: what the executable
/// tree holds, with every text as its character sequence.
#[verifier::ext_equal]
pub enum ContentView {
    TagV(TagView),
    ControlV(ControlView),
    LitV(Seq<char>),
    ExprV(Seq<char>),
    RawV(Seq<char>),
}

#[verifier::ext_equal]
pub struct TagView {
    pub tag: Seq<char>,
    pub attributes: Seq<AttrView>,
    pub children: Seq<ContentView>,
    pub is_self_closing: bool,
}

#[verifier::ext_equal]
pub enum ControlView {
    IfChainV {
        if_statement: Seq<char>,
        if_content: Seq<ContentView>,
        if_else_chain: Seq<(Seq<char>, Seq<ContentView>)>,
        else_content: Option<Seq<ContentView>>,
    },
    ForV { left_side: Seq<char>, right_side: Seq<char>, contents: Seq<ContentView> },
    MatchV { match_statement: Seq<char>, cases: Seq<(Seq<char>, Seq<ContentView>)> },
}

/// The kind and head payloads a command group opens.
pub enum CommandParsed {
    CmdFor(Seq<char>, Seq<char>),
    CmdIf(Seq<char>),
    CmdMatch(Seq<char>),
    CmdErr(Seq<char>),
}

pub open spec fn content_view(c: Content) -> ContentView
    decreases c, 9nat,
{
    match c {
        Content::Tag(t) => ContentView::TagV(tag_view(t)),
        Content::ControlTag(ct) => ContentView::ControlV(control_view(ct)),
        Content::Literal(s) => ContentView::LitV(s@),
        Content::Expression(s) => ContentView::ExprV(s@),
        Content::RawHTMLExpression(s) => ContentView::RawV(s@),
    }
}

pub open spec fn contents_view(cs: Seq<Content>) -> Seq<ContentView>
    decreases cs, 8nat,
{
    if cs.len() == 0 {
        Seq::<ContentView>::empty()
    } else {
        seq![content_view(cs[0])] + contents_view(cs.skip(1))
    }
}

/// The view of a sibling run keeps its length and views each node.
pub proof fn lemma_contents_view(cs: Seq<Content>)
    ensures
        contents_view(cs).len() == cs.len(),
        forall|k: int| 0 <= k < cs.len() ==> contents_view(cs)[k] == content_view(#[trigger] cs[k]),
    decreases cs,
{
    if cs.len() > 0 {
        lemma_contents_view(cs.skip(1));
        assert forall|k: int| 0 <= k < cs.len() implies contents_view(cs)[k] == content_view(
            #[trigger] cs[k],
        ) by {
            if k > 0 {
                assert(contents_view(cs)[k] == contents_view(cs.skip(1))[k - 1]);
                assert(cs.skip(1)[k - 1] == cs[k]);
            }
        }
    }
}

pub open spec fn tag_view(t: HTMLTag) -> TagView
    decreases t, 8nat,
{
    TagView {
        tag: t.tag@,
        attributes: Seq::new(t.attributes@.len(), |k: int| attr_view(t.attributes@[k])),
        children: contents_view(t.children@),
        is_self_closing: t.is_self_closing,
    }
}

pub open spec fn branches_view(bs: Seq<(String, Vec<Content>)>) -> Seq<(Seq<char>, Seq<
    ContentView,
>)>
    decreases bs, 9nat,
{
    if bs.len() == 0 {
        Seq::<(Seq<char>, Seq<ContentView>)>::empty()
    } else {
        seq![(bs[0].0@, contents_view(bs[0].1@))] + branches_view(bs.skip(1))
    }
}

/// Extending a sibling run by one node extends its view.
pub proof fn lemma_contents_view_push(cs: Seq<Content>, c: Content)
    ensures
        contents_view(cs.push(c)) == contents_view(cs).push(content_view(c)),
{
    lemma_contents_view(cs.push(c));
    lemma_contents_view(cs);
    assert forall|k: int| 0 <= k < contents_view(cs.push(c)).len() implies contents_view(
        cs.push(c),
    )[k] == contents_view(cs).push(content_view(c))[k] by {
        if k < cs.len() {
            assert(cs.push(c)[k] == cs[k]);
            assert(contents_view(cs.push(c))[k] == content_view(cs.push(c)[k]));
            assert(contents_view(cs)[k] == content_view(cs[k]));
        } else {
            assert(cs.push(c)[k] == c);
            assert(contents_view(cs.push(c))[k] == content_view(c));
        }
    }
    assert(contents_view(cs.push(c)) =~= contents_view(cs).push(content_view(c)));
}

/// The view of a branch list keeps its length and views each branch.
pub proof fn lemma_branches_view(bs: Seq<(String, Vec<Content>)>)
    ensures
        branches_view(bs).len() == bs.len(),
        forall|k: int|
            0 <= k < bs.len() ==> branches_view(bs)[k] == ((#[trigger] bs[k]).0@, contents_view(
                bs[k].1@,
            )),
    decreases bs,
{
    if bs.len() > 0 {
        lemma_branches_view(bs.skip(1));
        assert forall|k: int| 0 <= k < bs.len() implies branches_view(bs)[k] == (
        (#[trigger] bs[k]).0@, contents_view(bs[k].1@)) by {
            if k > 0 {
                assert(branches_view(bs)[k] == branches_view(bs.skip(1))[k - 1]);
                assert(bs.skip(1)[k - 1] == bs[k]);
            }
        }
    }
}

/// Extending a branch list by one branch extends its view.
pub proof fn lemma_branches_view_push(bs: Seq<(String, Vec<Content>)>, b: (String, Vec<Content>))
    ensures
        branches_view(bs.push(b)) == branches_view(bs).push((b.0@, contents_view(b.1@))),
{
    lemma_branches_view(bs.push(b));
    lemma_branches_view(bs);
    assert forall|k: int| 0 <= k < branches_view(bs.push(b)).len() implies branches_view(
        bs.push(b),
    )[k] == branches_view(bs).push((b.0@, contents_view(b.1@)))[k] by {
        if k < bs.len() {
            assert(bs.push(b)[k] == bs[k]);
            assert(branches_view(bs.push(b))[k] == (bs.push(b)[k].0@, contents_view(
                bs.push(b)[k].1@,
            )));
            assert(branches_view(bs)[k] == (bs[k].0@, contents_view(bs[k].1@)));
        } else {
            assert(bs.push(b)[k] == b);
            assert(branches_view(bs.push(b))[k] == (b.0@, contents_view(b.1@)));
        }
    }
    assert(branches_view(bs.push(b)) =~= branches_view(bs).push((b.0@, contents_view(b.1@))));
}

pub open spec fn control_view(ct: ControlTag) -> ControlView
    decreases ct, 8nat,
{
    match ct {
        ControlTag::IfChain { if_statement, if_content, if_else_chain, else_content } => {
            ControlView::IfChainV {
                if_statement: if_statement@,
                if_content: contents_view(if_content@),
                if_else_chain: branches_view(if_else_chain@),
                else_content: match else_content {
                    Some(cs) => Some(contents_view(cs@)),
                    None => None,
                },
            }
        },
        ControlTag::For { left_side, right_side, contents } => {
            ControlView::ForV {
                left_side: left_side@,
                right_side: right_side@,
                contents: contents_view(contents@),
            }
        },
        ControlTag::Match { match_statement, cases } => {
            ControlView::MatchV {
                match_statement: match_statement@,
                cases: branches_view(cases@),
            }
        },
    }
}

/// The executable result agrees with the grammar rule, success and failure
/// alike: same node (as its view), same end position, same message, same
/// anchor.
pub open spec fn content_matches(r: Result<(Content, usize), ParseError>, s: Parsed<
    ContentView,
>) -> bool {
    match (r, s) {
        (Ok(p), Parsed::Found(v, e)) => content_view(p.0) == v && p.1 as int == e,
        (Err(er), Parsed::Failed(m, q)) => er.message@ == m && er.position as int == q,
        _ => false,
    }
}

pub open spec fn html_matches(r: Result<(HTMLTag, usize), ParseError>, s: Parsed<
    TagView,
>) -> bool {
    match (r, s) {
        (Ok(p), Parsed::Found(v, e)) => tag_view(p.0) == v && p.1 as int == e,
        (Err(er), Parsed::Failed(m, q)) => er.message@ == m && er.position as int == q,
        _ => false,
    }
}

pub open spec fn control_matches(r: Result<(ControlTag, usize), ParseError>, s: Parsed<
    ControlView,
>) -> bool {
    match (r, s) {
        (Ok(p), Parsed::Found(v, e)) => control_view(p.0) == v && p.1 as int == e,
        (Err(er), Parsed::Failed(m, q)) => er.message@ == m && er.position as int == q,
        _ => false,
    }
}

pub open spec fn contents_matches(r: Result<(Vec<Content>, usize), ParseError>, s: Parsed<
    Seq<ContentView>,
>) -> bool {
    match (r, s) {
        (Ok(p), Parsed::Found(v, e)) => contents_view(p.0@) == v && p.1 as int == e,
        (Err(er), Parsed::Failed(m, q)) => er.message@ == m && er.position as int == q,
        _ => false,
    }
}

pub open spec fn component_matches(r: Result<Component, ParseError>, s: Parsed<
    Seq<ContentView>,
>) -> bool {
    match (r, s) {
        (Ok(c), Parsed::Found(v, _)) => contents_view(c.children@) == v,
        (Err(er), Parsed::Failed(m, q)) => er.message@ == m && er.position as int == q,
        _ => false,
    }
}

pub open spec fn attrs_matches(attrs: Seq<Attribute>, end: int, s: Parsed<Seq<AttrView>>) -> bool {
    s == Parsed::<Seq<AttrView>>::Found(
        Seq::new(attrs.len(), |k: int| attr_view(attrs[k])),
        end,
    )
}

} // verus!
