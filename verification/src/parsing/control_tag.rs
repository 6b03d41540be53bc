use vstd::prelude::*;
use vstd::string::*;
use vstd::pervasive::unreached;
use crate::ast::{Content, ControlTag, TypeOfCommandTag, contents_wf, control_wf};
use crate::parsing::utils::{
    case_statement_at, close_command_at, end_of_if_at, ident_text, is_cursor_on_else_branch,
    is_cursor_on_else_if_branch, is_cursor_on_end_of_if_branch, is_cursor_on_new_if_branch,
    matches_corresponding_command_tag, new_if_branch_at,
};
use crate::parsing::grammar::{
    branches_view, contents_view, control_matches, control_view, gather, lemma_branches_view_push,
    lemma_contents_view_push, lemma_gather_done, lemma_gather_empty, lemma_gather_step, prepend,
    sp_cases, sp_chain, sp_command, sp_content, sp_for_body, sp_if_body, sp_match_body, sp_until,
    stop_kind_tag, CommandParsed, ContentView, Parsed,
};
use crate::parsing::{missing_closing_command_message, ParseError};
use crate::tokens::{payload_source, payload_src, token_text, token_wf, Delim, Token, tokens_wf};

verus! {

/// The first token at or after `from` whose source text is the bare `in`
/// keyword, splitting a loop head into binder and iterable.
pub open spec fn first_in_token(ts: Seq<Token>, from: int) -> Option<int>
    decreases ts.len() - from,
{
    if from < 0 || from >= ts.len() {
        None
    } else if token_text(ts[from]) == "in"@ {
        Some(from)
    } else {
        first_in_token(ts, from + 1)
    }
}

/// The shape a command group must have for [`TypeOfCommandTag::parse`] to
/// accept it: a `#`, one of the three keywords, and a non-empty remainder
/// (for a loop, a bare `in` with a non-empty right-hand side).
pub open spec fn command_wf(ts: Seq<Token>) -> bool {
    &&& ts.len() >= 2
    &&& (ts[0] matches Token::Punct(c, _) && c == '#')
    &&& ts[1] is Ident
    &&& (ident_text(ts[1]) == "for"@ || ident_text(ts[1]) == "if"@ || ident_text(ts[1])
        == "match"@)
    &&& (ident_text(ts[1]) == "for"@ ==> (first_in_token(ts, 2) matches Some(k) && k + 1 < ts.len()))
    &&& (ident_text(ts[1]) == "if"@ ==> ts.len() > 2)
    &&& (ident_text(ts[1]) == "match"@ ==> ts.len() > 2)
}

impl TypeOfCommandTag {
    /// Parse the interior of a `{#…}` command group: the kind of construct
    /// it opens and its opaque head payloads.  All errors point at
    /// `err_pos`, the group's own position.
    #[verifier::loop_isolation(false)]
    pub fn parse(toks: &Vec<Token>, err_pos: usize) -> (r: Result<TypeOfCommandTag, ParseError>)
        requires
            tokens_wf(toks@),
        ensures
            match r {
                Ok(cmd) => command_wf(toks@) && (match cmd {
                    TypeOfCommandTag::For { left_side, right_side } => {
                        &&& ident_text(toks@[1]) == "for"@
                        &&& (first_in_token(toks@, 2) matches Some(k) && left_side@
                            == payload_src(toks@.subrange(2, k)) && right_side@ == payload_src(
                            toks@.subrange(k + 1, toks@.len() as int),
                        ))
                    },
                    TypeOfCommandTag::If(st) => ident_text(toks@[1]) == "if"@ && st@
                        == payload_src(toks@.subrange(2, toks@.len() as int)),
                    TypeOfCommandTag::Match(st) => ident_text(toks@[1]) == "match"@ && st@
                        == payload_src(toks@.subrange(2, toks@.len() as int)),
                }),
                Err(e) => !command_wf(toks@) && e.position == err_pos,
            },
            match r {
                Ok(cmd) => (match cmd {
                    TypeOfCommandTag::For { left_side, right_side } => sp_command(toks@)
                        == CommandParsed::CmdFor(left_side@, right_side@),
                    TypeOfCommandTag::If(st) => sp_command(toks@) == CommandParsed::CmdIf(st@),
                    TypeOfCommandTag::Match(st) => sp_command(toks@) == CommandParsed::CmdMatch(
                        st@,
                    ),
                }),
                Err(e) => sp_command(toks@) == CommandParsed::CmdErr(e.message@),
            },
    {
        proof {
            reveal_strlit("for");
            reveal_strlit("if");
            reveal_strlit("match");
        }
        if toks.len() < 2 {
            return Err(
                ParseError {
                    message: "Unknown command tag, must be: 'for', 'if' or 'match'".to_owned(),
                    position: err_pos,
                },
            );
        }
        let hash_ok = match &toks[0] {
            Token::Punct(c, _) => *c == '#',
            _ => false,
        };
        if !hash_ok {
            return Err(
                ParseError {
                    message: "Unknown command tag, must be: 'for', 'if' or 'match'".to_owned(),
                    position: err_pos,
                },
            );
        }
        let kw = match &toks[1] {
            Token::Ident(s) => s.clone(),
            _ => {
                return Err(
                    ParseError {
                        message: "Unknown command tag, must be: 'for', 'if' or 'match'".to_owned(),
                        position: err_pos,
                    },
                );
            },
        };
        let n = toks.len();
        if kw.eq(&"for".to_owned()) {
            let in_kw = "in".to_owned();
            let mut k: usize = 2;
            let ghost ts = toks@;
            while k < n
                invariant
                    2 <= k <= n,
                    n == toks@.len(),
                    ts == toks@,
                    in_kw@ == "in"@,
                    tokens_wf(toks@),
                    forall|m: int| 2 <= m < k ==> token_text(ts[m]) != "in"@,
                    first_in_token(ts, 2) == first_in_token(ts, k as int),
                decreases n - k,
            {
                let src = toks[k].to_source();
                if src.eq(&in_kw) {
                    proof {
                        assert(first_in_token(ts, k as int) == Some(k as int));
                    }
                    if k + 1 >= n {
                        return Err(
                            ParseError {
                                message: "Empty right side of `in`.".to_owned(),
                                position: err_pos,
                            },
                        );
                    }
                    let left_side = payload_source(toks, 2, k);
                    let right_side = payload_source(toks, k + 1, n);
                    return Ok(TypeOfCommandTag::For { left_side, right_side });
                }
                k = k + 1;
            }
            proof {
                assert(first_in_token(ts, k as int) is None);
            }
            Err(
                ParseError {
                    message: "No `in` found in for loop ".to_owned(),
                    position: err_pos,
                },
            )
        } else if kw.eq(&"match".to_owned()) {
            if n <= 2 {
                return Err(
                    ParseError {
                        message: "No variable to match against.".to_owned(),
                        position: err_pos,
                    },
                );
            }
            let st = payload_source(toks, 2, n);
            Ok(TypeOfCommandTag::Match(st))
        } else if kw.eq(&"if".to_owned()) {
            if n <= 2 {
                return Err(
                    ParseError {
                        message: "If statement is empty.".to_owned(),
                        position: err_pos,
                    },
                );
            }
            let st = payload_source(toks, 2, n);
            Ok(TypeOfCommandTag::If(st))
        } else {
            Err(
                ParseError {
                    message: "Unknown command tag, must be: 'for', 'if' or 'match'".to_owned(),
                    position: err_pos,
                },
            )
        }
    }
}

/// What ends the content run being collected: the closing marker of a
/// loop, a branch boundary of a conditional, the closing marker of a
/// conditional, or the next case marker or closing marker of a match.
#[derive(Clone, Copy, PartialEq, Eq, Structural)]
pub enum StopKind {
    LoopEnd,
    IfBranch,
    IfEnd,
    MatchCaseOrEnd,
}

/// A closing marker `{/keyword}` stands at `p`.  Any group delimiter is
/// accepted here and only the group's first two tokens are inspected,
/// exactly as the marker is consumed.
pub open spec fn closing_marker_at(ts: Seq<Token>, p: int, kw: Seq<char>) -> bool {
    &&& 0 <= p < ts.len()
    &&& (ts[p] matches Token::Group(_, inner) && inner@.len() >= 2 && (
    inner@[0] matches Token::Punct(c, _) && c == '/') && (inner@[1] matches Token::Ident(s) && s@
        == kw))
}

pub open spec fn stop_spec(kind: StopKind, ts: Seq<Token>, p: int) -> bool {
    match kind {
        StopKind::LoopEnd => close_command_at(ts, p, "for"@),
        StopKind::IfBranch => new_if_branch_at(ts, p),
        StopKind::IfEnd => end_of_if_at(ts, p),
        StopKind::MatchCaseOrEnd => case_statement_at(ts, p) || close_command_at(ts, p, "match"@),
    }
}

/// The construct keyword a stop kind belongs to, for diagnostics.
fn stop_tag_name(kind: StopKind) -> (r: &'static str)
    ensures
        kind == StopKind::LoopEnd ==> r@ == "for"@,
        (kind == StopKind::IfBranch || kind == StopKind::IfEnd) ==> r@ == "if"@,
        kind == StopKind::MatchCaseOrEnd ==> r@ == "match"@,
{
    match kind {
        StopKind::LoopEnd => "for",
        StopKind::IfBranch => "if",
        StopKind::IfEnd => "if",
        StopKind::MatchCaseOrEnd => "match",
    }
}

fn stop_here(kind: StopKind, toks: &Vec<Token>, p: usize) -> (r: bool)
    ensures
        r == stop_spec(kind, toks@, p as int),
{
    match kind {
        StopKind::LoopEnd => matches_corresponding_command_tag(toks, p, "for"),
        StopKind::IfBranch => is_cursor_on_new_if_branch(toks, p),
        StopKind::IfEnd => is_cursor_on_end_of_if_branch(toks, p),
        StopKind::MatchCaseOrEnd => {
            let case_here = crate::parsing::utils::matches_case_statement(toks, p);
            case_here || matches_corresponding_command_tag(toks, p, "match")
        },
    }
}

/// Build the diagnostic for an unterminated construct.
fn missing_closing_message_for(tag: &str) -> (r: String)
    ensures
        r@ == missing_closing_command_message(tag@),
{
    let mut m = "missing matching closing tag `{/".to_owned();
    m.append(tag);
    m.append("}`");
    m
}

impl ControlTag {
    /// Parse the control construct whose `{#…}` command group stands at
    /// `i`.
    #[verifier::loop_isolation(false)]
    pub fn parse(toks: &Vec<Token>, i: usize) -> (r: Result<(ControlTag, usize), ParseError>)
        requires
            tokens_wf(toks@),
        ensures
            match r {
                Ok(p) => {
                    &&& i < p.1 <= toks@.len()
                    &&& control_wf(p.0)
                    &&& (toks@[i as int] matches Token::Group(d, _) && d == Delim::Brace)
                    &&& command_wf(crate::tokens::group_inner(toks@[i as int]))
                },
                Err(_) => true,
            },
            ({
                let inner = crate::tokens::group_inner(toks@[i as int]);
                (i < toks@.len() && (toks@[i as int] matches Token::Group(d, _) && d
                    == Delim::Brace) && command_wf(inner) && ident_text(inner[1]) == "if"@
                    && end_of_if_at(toks@, i as int + 1)) ==> (r matches Ok(p) && p.1 == i + 2
                    && (p.0 matches ControlTag::IfChain {
                    if_statement,
                    if_content,
                    if_else_chain,
                    else_content,
                } && if_statement@ == payload_src(inner.subrange(2, inner.len() as int))
                    && if_content@.len() == 0 && if_else_chain@.len() == 0 && else_content
                    is None))
            }),
            ({
                let inner = crate::tokens::group_inner(toks@[i as int]);
                (i < toks@.len() && (toks@[i as int] matches Token::Group(d, _) && d
                    == Delim::Brace) && command_wf(inner) && ident_text(inner[1]) == "match"@
                    && close_command_at(toks@, i as int + 1, "match"@)) ==> (r matches Ok(p)
                    && p.1 == i + 2 && (p.0 matches ControlTag::Match { match_statement, cases }
                    && match_statement@ == payload_src(inner.subrange(2, inner.len() as int))
                    && cases@.len() == 0))
            }),
            ({
                let inner = crate::tokens::group_inner(toks@[i as int]);
                (i < toks@.len() && (toks@[i as int] matches Token::Group(d, _) && d
                    == Delim::Brace) && command_wf(inner) && ident_text(inner[1]) == "for"@
                    && close_command_at(toks@, i as int + 1, "for"@)) ==> (r matches Ok(p)
                    && p.1 == i + 2 && (p.0 matches ControlTag::For {
                    left_side,
                    right_side,
                    contents,
                } && (first_in_token(inner, 2) matches Some(k) && left_side@ == payload_src(
                    inner.subrange(2, k),
                ) && right_side@ == payload_src(inner.subrange(k + 1, inner.len() as int)))
                    && contents@.len() == 0))
            }),
            control_matches(r, crate::parsing::grammar::sp_control(toks@, i as int)),
        decreases toks@.len() - i, 5nat,
    {
        proof {
            reveal_strlit("for");
            reveal_strlit("if");
            reveal_strlit("match");
        }
        if i >= toks.len() {
            return Err(
                ParseError { message: "No tokens left to parse".to_owned(), position: i },
            );
        }
        let ghost inner_spec = crate::tokens::group_inner(toks@[i as int]);
        let cmd = match &toks[i] {
            Token::Group(Delim::Brace, inner) => {
                proof {
                    assert(token_wf(toks@[i as int]));
                    assert(inner@ == inner_spec);
                }
                TypeOfCommandTag::parse(inner, i)
            },
            _ => {
                return Err(
                    ParseError { message: "Expected a group".to_owned(), position: i },
                );
            },
        };
        match cmd {
            Err(e) => Err(e),
            Ok(TypeOfCommandTag::For { left_side, right_side }) => {
                proof {
                    assert(ident_text(inner_spec[1]) == "for"@);
                    assert(first_in_token(inner_spec, 2) matches Some(k) && left_side@
                        == payload_src(inner_spec.subrange(2, k)) && right_side@ == payload_src(
                        inner_spec.subrange(k + 1, inner_spec.len() as int),
                    ));
                }
                Self::parse_for_loop_body(toks, i + 1, i, left_side, right_side)
            },
            Ok(TypeOfCommandTag::If(if_statement)) => {
                proof {
                    assert(ident_text(inner_spec[1]) == "if"@);
                    assert(if_statement@ == payload_src(
                        inner_spec.subrange(2, inner_spec.len() as int),
                    ));
                }
                Self::parse_if_statement_body(toks, i + 1, i, if_statement)
            },
            Ok(TypeOfCommandTag::Match(match_statement)) => {
                proof {
                    assert(ident_text(inner_spec[1]) == "match"@);
                    assert(match_statement@ == payload_src(
                        inner_spec.subrange(2, inner_spec.len() as int),
                    ));
                }
                Self::parse_match_body(toks, i + 1, i, match_statement)
            },
        }
    }

    /// Collect content until the given boundary; running out of input
    /// reports the construct that was left open, at its opening position.
    #[verifier::loop_isolation(false)]
    fn parse_content_until(toks: &Vec<Token>, from: usize, open_pos: usize, kind: StopKind) -> (r:
        Result<(Vec<Content>, usize), ParseError>)
        requires
            tokens_wf(toks@),
            from <= toks@.len(),
        ensures
            match r {
                Ok(p) => {
                    &&& from <= p.1 <= toks@.len()
                    &&& contents_wf(p.0@)
                    &&& stop_spec(kind, toks@, p.1 as int)
                    &&& (p.1 == from <==> p.0@.len() == 0)
                },
                Err(_) => true,
            },
            stop_spec(kind, toks@, from as int) ==> (r matches Ok(p) && p.1 == from
                && p.0@.len() == 0),
            from == toks@.len() ==> (r matches Err(e) && e.position == from && e.message@
                == "No tokens left to parse"@),
            crate::parsing::grammar::contents_matches(
                r,
                sp_until(toks@, from as int, open_pos as int, kind),
            ),
        decreases toks@.len() - from, 8nat,
    {
        let mut contents: Vec<Content> = Vec::new();
        let mut p = from;
        proof {
            assert(contents_view(contents@) =~= Seq::<ContentView>::empty());
            lemma_gather_empty(sp_until(toks@, from as int, open_pos as int, kind));
        }
        while !stop_here(kind, toks, p)
            invariant
                from <= p <= toks@.len(),
                contents_wf(contents@),
                p == from <==> contents@.len() == 0,
                stop_spec(kind, toks@, from as int) ==> p == from,
                sp_until(toks@, from as int, open_pos as int, kind) == gather(
                    contents_view(contents@),
                    sp_until(toks@, p as int, open_pos as int, kind),
                ),
            decreases toks@.len() - p,
        {
            let ghost p0 = p as int;
            let ghost kids0 = contents@;
            match Content::parse(toks, p) {
                Err(e) => {
                    proof {
                        assert(sp_until(toks@, p0, open_pos as int, kind) == Parsed::<Seq<
                            ContentView,
                        >>::Failed(e.message@, e.position as int));
                    }
                    return Err(e);
                },
                Ok(item) => {
                    let (child, q) = item;
                    contents.push(child);
                    p = q;
                },
            }
            if p >= toks.len() {
                proof {
                    assert(sp_until(toks@, p0, open_pos as int, kind) == Parsed::<Seq<
                        ContentView,
                    >>::Failed(
                        missing_closing_command_message(stop_kind_tag(kind)),
                        open_pos as int,
                    ));
                }
                let tag = stop_tag_name(kind);
                return Err(
                    ParseError { message: missing_closing_message_for(tag), position: open_pos },
                );
            }
            proof {
                let child = contents@[contents@.len() - 1];
                lemma_contents_view_push(kids0, child);
                assert(sp_until(toks@, p0, open_pos as int, kind) == prepend(
                    crate::parsing::grammar::content_view(child),
                    sp_until(toks@, p as int, open_pos as int, kind),
                ));
                lemma_gather_step(
                    contents_view(kids0),
                    crate::parsing::grammar::content_view(child),
                    sp_until(toks@, p as int, open_pos as int, kind),
                );
            }
        }
        proof {
            assert(sp_until(toks@, p as int, open_pos as int, kind) == Parsed::<Seq<
                ContentView,
            >>::Found(Seq::empty(), p as int));
            lemma_gather_done(contents_view(contents@), p as int);
        }
        Ok((contents, p))
    }

    /// Consume the closing marker `{/tag}`; anything else is the
    /// unterminated-construct error, pointing at the opening marker when
    /// no group is there at all and at the offending group otherwise.
    fn parse_closing_tag(toks: &Vec<Token>, p: usize, open_pos: usize, tag: &str) -> (r: Result<
        usize,
        ParseError,
    >)
        ensures
            r is Ok <==> closing_marker_at(toks@, p as int, tag@),
            match r {
                Ok(q) => q == p + 1 && p < toks@.len(),
                Err(e) => {
                    &&& e.message@ == missing_closing_command_message(tag@)
                    &&& e.position == (if p < toks@.len() && toks@[p as int] is Group {
                        p
                    } else {
                        open_pos
                    })
                },
            },
    {
        if p >= toks.len() {
            return Err(
                ParseError { message: missing_closing_message_for(tag), position: open_pos },
            );
        }
        match &toks[p] {
            Token::Group(_, inner) => {
                if inner.len() < 2 {
                    return Err(
                        ParseError { message: missing_closing_message_for(tag), position: p },
                    );
                }
                let slash_ok = match &inner[0] {
                    Token::Punct(c, _) => *c == '/',
                    _ => false,
                };
                let kw_ok = match &inner[1] {
                    Token::Ident(s) => s.eq(&tag.to_owned()),
                    _ => false,
                };
                if slash_ok && kw_ok {
                    Ok(p + 1)
                } else {
                    Err(ParseError { message: missing_closing_message_for(tag), position: p })
                }
            },
            _ => Err(
                ParseError { message: missing_closing_message_for(tag), position: open_pos },
            ),
        }
    }

    #[verifier::loop_isolation(false)]
    fn parse_for_loop_body(
        toks: &Vec<Token>,
        from: usize,
        open_pos: usize,
        left_side: String,
        right_side: String,
    ) -> (r: Result<(ControlTag, usize), ParseError>)
        requires
            tokens_wf(toks@),
            from <= toks@.len(),
            open_pos < from,
        ensures
            match r {
                Ok(p) => open_pos < p.1 <= toks@.len() && control_wf(p.0),
                Err(_) => true,
            },
            close_command_at(toks@, from as int, "for"@) ==> (r matches Ok(p) && p.1 == from + 1
                && (p.0 matches ControlTag::For { left_side: l, right_side: rr, contents }
                && l == left_side && rr == right_side && contents@.len() == 0)),
            control_matches(
                r,
                sp_for_body(toks@, from as int, open_pos as int, left_side@, right_side@),
            ),
        decreases toks@.len() - from, 9nat,
    {
        match Self::parse_content_until(toks, from, open_pos, StopKind::LoopEnd) {
            Err(e) => Err(e),
            Ok(p) => {
                let (contents, q) = p;
                match Self::parse_closing_tag(toks, q, open_pos, "for") {
                    Err(e) => Err(e),
                    Ok(after) => Ok(
                        (ControlTag::For { left_side, right_side, contents }, after),
                    ),
                }
            },
        }
    }

    #[verifier::loop_isolation(false)]
    fn parse_if_statement_body(
        toks: &Vec<Token>,
        from: usize,
        open_pos: usize,
        if_statement: String,
    ) -> (r: Result<(ControlTag, usize), ParseError>)
        requires
            tokens_wf(toks@),
            from <= toks@.len(),
            open_pos < from,
        ensures
            match r {
                Ok(p) => open_pos < p.1 <= toks@.len() && control_wf(p.0),
                Err(_) => true,
            },
            end_of_if_at(toks@, from as int) ==> (r matches Ok(p) && p.1 == from + 1 && (
            p.0 matches ControlTag::IfChain {
                if_statement: st,
                if_content,
                if_else_chain,
                else_content,
            } && st == if_statement && if_content@.len() == 0 && if_else_chain@.len() == 0
                && else_content is None)),
            control_matches(
                r,
                sp_if_body(toks@, from as int, open_pos as int, if_statement@),
            ),
        decreases toks@.len() - from, 9nat,
    {
        let if_content = match Self::parse_content_until(toks, from, open_pos, StopKind::IfBranch) {
            Err(e) => {
                return Err(e);
            },
            Ok(p) => p,
        };
        let mut q = if_content.1;
        let if_content = if_content.0;
        let ghost chain_start = q as int;
        let mut if_else_chain: Vec<(String, Vec<Content>)> = Vec::new();
        proof {
            assert(branches_view(if_else_chain@) =~= Seq::<(Seq<char>, Seq<
                ContentView,
            >)>::empty());
            lemma_gather_empty(sp_chain(toks@, chain_start, open_pos as int));
        }
        while is_cursor_on_else_if_branch(toks, q)
            invariant
                tokens_wf(toks@),
                from <= q <= toks@.len(),
                contents_wf(if_content@),
                forall|j: int|
                    0 <= j < if_else_chain@.len() ==> contents_wf(
                        #[trigger] if_else_chain@[j].1@,
                    ),
                end_of_if_at(toks@, from as int) ==> q == from && if_else_chain@.len() == 0,
                sp_chain(toks@, chain_start, open_pos as int) == gather(
                    branches_view(if_else_chain@),
                    sp_chain(toks@, q as int, open_pos as int),
                ),
            decreases toks@.len() - q,
        {
            let ghost q_iter = q as int;
            let ghost chain0 = if_else_chain@;
            let statement = match &toks[q] {
                Token::Group(_, inner) => {
                    proof {
                        assert(token_wf(toks@[q as int]));
                    }
                    payload_source(inner, 3, inner.len())
                },
                _ => unreached(),
            };
            if q >= toks.len() {
                return unreached();
            }
            q = q + 1;
            match Self::parse_content_until(toks, q, open_pos, StopKind::IfBranch) {
                Err(e) => {
                    proof {
                        assert(sp_chain(toks@, q_iter, open_pos as int) == Parsed::<Seq<(Seq<
                            char,
                        >, Seq<ContentView>)>>::Failed(e.message@, e.position as int));
                    }
                    return Err(e);
                },
                Ok(p) => {
                    let (branch, q2) = p;
                    if_else_chain.push((statement, branch));
                    q = q2;
                    proof {
                        let b = if_else_chain@[if_else_chain@.len() - 1];
                        lemma_branches_view_push(chain0, b);
                        assert(sp_chain(toks@, q_iter, open_pos as int) == prepend(
                            (b.0@, contents_view(b.1@)),
                            sp_chain(toks@, q as int, open_pos as int),
                        ));
                        lemma_gather_step(
                            branches_view(chain0),
                            (b.0@, contents_view(b.1@)),
                            sp_chain(toks@, q as int, open_pos as int),
                        );
                    }
                },
            }
        }
        proof {
            assert(sp_chain(toks@, q as int, open_pos as int) == Parsed::<Seq<(Seq<char>, Seq<
                ContentView,
            >)>>::Found(Seq::empty(), q as int));
            lemma_gather_done(branches_view(if_else_chain@), q as int);
        }
        let else_content = if is_cursor_on_else_branch(toks, q) {
            if q >= toks.len() {
                return unreached();
            }
            q = q + 1;
            match Self::parse_content_until(toks, q, open_pos, StopKind::IfEnd) {
                Err(e) => {
                    return Err(e);
                },
                Ok(p) => {
                    let (body, q2) = p;
                    q = q2;
                    Some(body)
                },
            }
        } else {
            None
        };
        match Self::parse_closing_tag(toks, q, open_pos, "if") {
            Err(e) => Err(e),
            Ok(after) => Ok(
                (
                    ControlTag::IfChain { if_statement, if_content, if_else_chain, else_content },
                    after,
                ),
            ),
        }
    }

    #[verifier::loop_isolation(false)]
    fn parse_match_body(
        toks: &Vec<Token>,
        from: usize,
        open_pos: usize,
        match_statement: String,
    ) -> (r: Result<(ControlTag, usize), ParseError>)
        requires
            tokens_wf(toks@),
            from <= toks@.len(),
            open_pos < from,
        ensures
            match r {
                Ok(p) => open_pos < p.1 <= toks@.len() && control_wf(p.0),
                Err(_) => true,
            },
            close_command_at(toks@, from as int, "match"@) ==> (r matches Ok(p) && p.1 == from + 1
                && (p.0 matches ControlTag::Match { match_statement: ms, cases }
                && ms == match_statement && cases@.len() == 0)),
            control_matches(
                r,
                sp_match_body(toks@, from as int, open_pos as int, match_statement@),
            ),
        decreases toks@.len() - from, 9nat,
    {
        let mut cases: Vec<(String, Vec<Content>)> = Vec::new();
        let mut q = from;
        proof {
            assert(branches_view(cases@) =~= Seq::<(Seq<char>, Seq<ContentView>)>::empty());
            lemma_gather_empty(sp_cases(toks@, from as int, open_pos as int));
        }
        while !matches_corresponding_command_tag(toks, q, "match")
            invariant
                tokens_wf(toks@),
                from <= q <= toks@.len(),
                forall|j: int| 0 <= j < cases@.len() ==> contents_wf(#[trigger] cases@[j].1@),
                close_command_at(toks@, from as int, "match"@) ==> q == from && cases@.len() == 0,
                sp_cases(toks@, from as int, open_pos as int) == gather(
                    branches_view(cases@),
                    sp_cases(toks@, q as int, open_pos as int),
                ),
            decreases toks@.len() - q,
        {
            let ghost q_iter = q as int;
            let ghost cases0 = cases@;
            if q >= toks.len() {
                return Err(
                    ParseError {
                        message: missing_closing_message_for("match"),
                        position: open_pos,
                    },
                );
            }
            if !crate::parsing::utils::matches_case_statement(toks, q) {
                return Err(
                    ParseError {
                        message: "Expected a case statement like `{:case pattern}`".to_owned(),
                        position: q,
                    },
                );
            }
            let case_pos = q;
            let statement = match &toks[q] {
                Token::Group(_, inner) => {
                    proof {
                        assert(token_wf(toks@[q as int]));
                    }
                    let start = if inner.len() < 2 {
                        inner.len()
                    } else {
                        2
                    };
                    payload_source(inner, start, inner.len())
                },
                _ => unreached(),
            };
            q = q + 1;
            match Self::parse_content_until(toks, q, case_pos, StopKind::MatchCaseOrEnd) {
                Err(e) => {
                    proof {
                        assert(sp_cases(toks@, q_iter, open_pos as int) == Parsed::<Seq<(Seq<
                            char,
                        >, Seq<ContentView>)>>::Failed(e.message@, e.position as int));
                    }
                    return Err(e);
                },
                Ok(p) => {
                    let (children, q2) = p;
                    cases.push((statement, children));
                    q = q2;
                    proof {
                        let b = cases@[cases@.len() - 1];
                        lemma_branches_view_push(cases0, b);
                        assert(sp_cases(toks@, q_iter, open_pos as int) == prepend(
                            (b.0@, contents_view(b.1@)),
                            sp_cases(toks@, q as int, open_pos as int),
                        ));
                        lemma_gather_step(
                            branches_view(cases0),
                            (b.0@, contents_view(b.1@)),
                            sp_cases(toks@, q as int, open_pos as int),
                        );
                    }
                },
            }
        }
        proof {
            assert(sp_cases(toks@, q as int, open_pos as int) == Parsed::<Seq<(Seq<char>, Seq<
                ContentView,
            >)>>::Found(Seq::empty(), q as int));
            lemma_gather_done(branches_view(cases@), q as int);
        }
        match Self::parse_closing_tag(toks, q, open_pos, "match") {
            Err(e) => Err(e),
            Ok(after) => Ok((ControlTag::Match { match_statement, cases }, after)),
        }
    }
}

} // verus!
