use vstd::prelude::*;
use vstd::string::*;
use vstd::pervasive::unreached;
use crate::parsing::ParseError;
use crate::tokens::{Delim, Token, token_wf, tokens_wf};

verus! {

/// Text of an identifier token.
pub open spec fn ident_text(t: Token) -> Seq<char> {
    match t {
        Token::Ident(s) => s@,
        _ => Seq::<char>::empty(),
    }
}

/// A possibly hyphenated name read greedily from position `i`: an
/// identifier, extended by `-identifier` pairs as long as they follow.
/// Returns the name and the position after it; meaningful only when the
/// token at `i` is an identifier.
pub open spec fn name_from(ts: Seq<Token>, i: int) -> (Seq<char>, int)
    decreases ts.len() - i,
{
    if 0 <= i < ts.len() && ts[i] is Ident {
        let base = ident_text(ts[i]);
        if i + 2 < ts.len() && (ts[i + 1] matches Token::Punct(c, _) && c == '-') && ts[i + 2]
            is Ident {
            let extended = name_from(ts, i + 2);
            (base + seq!['-'] + extended.0, extended.1)
        } else {
            (base, i + 1)
        }
    } else {
        (Seq::<char>::empty(), i)
    }
}

/// A name read at an identifier always advances and stays in bounds.
pub proof fn lemma_name_from_pos(ts: Seq<Token>, i: int)
    ensures
        0 <= i < ts.len() && ts[i] is Ident ==> i < name_from(ts, i).1 <= ts.len(),
    decreases ts.len() - i,
{
    if 0 <= i < ts.len() && ts[i] is Ident {
        if i + 2 < ts.len() && (ts[i + 1] matches Token::Punct(c, _) && c == '-') && ts[i + 2]
            is Ident {
            lemma_name_from_pos(ts, i + 2);
        }
    }
}

/// Read a possibly hyphenated name at `i`.
pub fn read_name(toks: &Vec<Token>, i: usize) -> (r: Result<(String, usize), ParseError>)
    requires
        tokens_wf(toks@),
    ensures
        match r {
            Ok(p) => {
                &&& i < toks@.len()
                &&& toks@[i as int] is Ident
                &&& p.0@ == name_from(toks@, i as int).0
                &&& p.1 as int == name_from(toks@, i as int).1
                &&& i < p.1 <= toks@.len()
                &&& p.0@.len() > 0
            },
            Err(e) => {
                &&& (i >= toks@.len() || !(toks@[i as int] is Ident))
                &&& e.position == i
            },
        },
    decreases toks@.len() - i,
{
    if i >= toks.len() {
        return Err(
            ParseError {
                message: "Expected an html like <p> or <custom-element>".to_owned(),
                position: i,
            },
        );
    }
    match &toks[i] {
        Token::Ident(s) => {
            proof {
                assert(token_wf(toks@[i as int]));
            }
            let mut name = s.clone();
            if toks.len() - i > 2 {
                let hyphen = match &toks[i + 1] {
                    Token::Punct(c, _) => *c == '-',
                    _ => false,
                };
                let ident_next = match &toks[i + 2] {
                    Token::Ident(_) => true,
                    _ => false,
                };
                if hyphen && ident_next {
                    match read_name(toks, i + 2) {
                        Ok(p) => {
                            let (rest, j) = p;
                            name.push('-');
                            name.append(rest.as_str());
                            proof {
                                assert(name@ =~= ident_text(toks@[i as int]) + seq!['-'] + rest@);
                            }
                            return Ok((name, j));
                        },
                        Err(_) => {
                            return unreached();
                        },
                    }
                }
            }
            Ok((name, i + 1))
        },
        _ => Err(
            ParseError {
                message: "Expected an html like <p> or <custom-element>".to_owned(),
                position: i,
            },
        ),
    }
}

/// A closing element tag `</name>` for the given name stands at `i`.
pub open spec fn closing_tag_at(ts: Seq<Token>, i: int, target: Seq<char>) -> bool {
    &&& 0 <= i
    &&& i + 2 < ts.len()
    &&& (ts[i] matches Token::Punct(c, _) && c == '<')
    &&& (ts[i + 1] matches Token::Punct(c, _) && c == '/')
    &&& ts[i + 2] is Ident
    &&& ({
        let nm = name_from(ts, i + 2);
        &&& nm.0 == target
        &&& nm.1 < ts.len()
        &&& (ts[nm.1] matches Token::Punct(c, _) && c == '>')
    })
}

/// Whether the cursor stands on the closing tag `</target_tag>`.
pub fn matches_tag(toks: &Vec<Token>, i: usize, target_tag: &String) -> (r: bool)
    requires
        tokens_wf(toks@),
    ensures
        r == closing_tag_at(toks@, i as int, target_tag@),
{
    if toks.len() < 3 || i >= toks.len() - 2 {
        return false;
    }
    let open_ok = match &toks[i] {
        Token::Punct(c, _) => *c == '<',
        _ => false,
    };
    if !open_ok {
        return false;
    }
    let slash_ok = match &toks[i + 1] {
        Token::Punct(c, _) => *c == '/',
        _ => false,
    };
    if !slash_ok {
        return false;
    }
    match read_name(toks, i + 2) {
        Err(_) => false,
        Ok(p) => {
            let (name, j) = p;
            if !name.eq(target_tag) {
                return false;
            }
            if j >= toks.len() {
                return false;
            }
            match &toks[j] {
                Token::Punct(c, _) => *c == '>',
                _ => false,
            }
        },
    }
}

/// The brace group at `i` opens with `/` followed by the given keyword.
pub open spec fn close_command_at(ts: Seq<Token>, i: int, target: Seq<char>) -> bool {
    &&& 0 <= i < ts.len()
    &&& (ts[i] matches Token::Group(d, inner) && d == Delim::Brace && inner@.len() >= 2 && (
    inner@[0] matches Token::Punct(c, _) && c == '/') && (inner@[1] matches Token::Ident(s) && s@
        == target))
}

/// Whether the cursor stands on the closing marker `{/target_tag}`.
pub fn matches_corresponding_command_tag(toks: &Vec<Token>, i: usize, target_tag: &str) -> (r:
    bool)
    ensures
        r == close_command_at(toks@, i as int, target_tag@),
{
    if i >= toks.len() {
        return false;
    }
    match &toks[i] {
        Token::Group(Delim::Brace, inner) => {
            if inner.len() < 2 {
                return false;
            }
            let slash_ok = match &inner[0] {
                Token::Punct(c, _) => *c == '/',
                _ => false,
            };
            if !slash_ok {
                return false;
            }
            match &inner[1] {
                Token::Ident(s) => s.eq(&target_tag.to_owned()),
                _ => false,
            }
        },
        _ => false,
    }
}

/// The brace group at `i` opens with `:` followed by the given keyword and
/// at least `min_len` tokens in all.
pub open spec fn colon_keyword_at(ts: Seq<Token>, i: int, kw: Seq<char>, min_len: int) -> bool {
    &&& 0 <= i < ts.len()
    &&& (ts[i] matches Token::Group(d, inner) && d == Delim::Brace && inner@.len() >= min_len && (
    inner@[0] matches Token::Punct(c, _) && c == ':') && (inner@[1] matches Token::Ident(s) && s@
        == kw))
}

fn colon_keyword_check(toks: &Vec<Token>, i: usize, kw: &str, min_len: usize) -> (r: bool)
    requires
        min_len >= 2,
    ensures
        r == colon_keyword_at(toks@, i as int, kw@, min_len as int),
{
    if i >= toks.len() {
        return false;
    }
    match &toks[i] {
        Token::Group(Delim::Brace, inner) => {
            if inner.len() < min_len {
                return false;
            }
            let colon_ok = match &inner[0] {
                Token::Punct(c, _) => *c == ':',
                _ => false,
            };
            if !colon_ok {
                return false;
            }
            match &inner[1] {
                Token::Ident(s) => s.eq(&kw.to_owned()),
                _ => false,
            }
        },
        _ => false,
    }
}

/// A `{:case …}` marker stands at `i`.
pub open spec fn case_statement_at(ts: Seq<Token>, i: int) -> bool {
    colon_keyword_at(ts, i, "case"@, 3)
}

/// Whether the cursor stands on a `{:case …}` marker.
pub fn matches_case_statement(toks: &Vec<Token>, i: usize) -> (r: bool)
    ensures
        r == case_statement_at(toks@, i as int),
{
    colon_keyword_check(toks, i, "case", 3)
}

/// An `{:else if …}` marker stands at `i`.
pub open spec fn else_if_branch_at(ts: Seq<Token>, i: int) -> bool {
    &&& colon_keyword_at(ts, i, "else"@, 3)
    &&& (ts[i] matches Token::Group(_, inner) && (inner@[2] matches Token::Ident(s) && s@
        == "if"@))
}

/// Whether the cursor stands on an `{:else if …}` marker.
pub fn is_cursor_on_else_if_branch(toks: &Vec<Token>, i: usize) -> (r: bool)
    ensures
        r == else_if_branch_at(toks@, i as int),
{
    if !colon_keyword_check(toks, i, "else", 3) {
        return false;
    }
    match &toks[i] {
        Token::Group(_, inner) => {
            match &inner[2] {
                Token::Ident(s) => s.eq(&"if".to_owned()),
                _ => false,
            }
        },
        _ => unreached(),
    }
}

/// An `{:else}` marker (or `{:else if …}`) stands at `i`.
pub open spec fn else_branch_at(ts: Seq<Token>, i: int) -> bool {
    colon_keyword_at(ts, i, "else"@, 2)
}

/// Whether the cursor stands on an else marker.
pub fn is_cursor_on_else_branch(toks: &Vec<Token>, i: usize) -> (r: bool)
    ensures
        r == else_branch_at(toks@, i as int),
{
    colon_keyword_check(toks, i, "else", 2)
}

/// The closing marker `{/if}` stands at `i`.
pub open spec fn end_of_if_at(ts: Seq<Token>, i: int) -> bool {
    close_command_at(ts, i, "if"@)
}

/// Whether the cursor stands on the closing marker of a conditional.
pub fn is_cursor_on_end_of_if_branch(toks: &Vec<Token>, i: usize) -> (r: bool)
    ensures
        r == end_of_if_at(toks@, i as int),
{
    matches_corresponding_command_tag(toks, i, "if")
}

/// A branch boundary of a conditional stands at `i`: another else-if, an
/// else, or the closing marker.
pub open spec fn new_if_branch_at(ts: Seq<Token>, i: int) -> bool {
    else_if_branch_at(ts, i) || else_branch_at(ts, i) || end_of_if_at(ts, i)
}

/// Whether the cursor stands on a branch boundary of a conditional.
pub fn is_cursor_on_new_if_branch(toks: &Vec<Token>, i: usize) -> (r: bool)
    ensures
        r == new_if_branch_at(toks@, i as int),
{
    is_cursor_on_else_if_branch(toks, i) || is_cursor_on_else_branch(toks, i)
        || is_cursor_on_end_of_if_branch(toks, i)
}

} // verus!
