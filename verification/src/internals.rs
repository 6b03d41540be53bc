use vstd::prelude::*;
use vstd::string::*;

verus! {

/// Does this character have to be replaced by an entity in rendered text?
pub open spec fn needs_escape(c: char) -> bool {
    c == '&' || c == '<' || c == '>' || c == '"' || c == '\''
}

/// Replacement for one character of untrusted text: the five HTML-special
/// characters become entities, all others pass through unchanged.
pub open spec fn escape_char(c: char) -> Seq<char> {
    if c == '&' {
        seq!['&', 'a', 'm', 'p', ';']
    } else if c == '<' {
        seq!['&', 'l', 't', ';']
    } else if c == '>' {
        seq!['&', 'g', 't', ';']
    } else if c == '"' {
        seq!['&', 'q', 'u', 'o', 't', ';']
    } else if c == '\'' {
        seq!['&', '#', 'x', '2', '7', ';']
    } else {
        seq![c]
    }
}

/// Escaped form of a text: each character replaced by [`escape_char`].
pub open spec fn escape_text(s: Seq<char>) -> Seq<char>
    decreases s,
{
    if s.len() == 0 {
        Seq::<char>::empty()
    } else {
        escape_char(s[0]) + escape_text(s.skip(1))
    }
}

/// Escaping a single character gives its replacement.
pub proof fn lemma_escape_text_single(c: char)
    ensures
        escape_text(seq![c]) == escape_char(c),
{
    assert(seq![c].skip(1) =~= Seq::<char>::empty());
    assert(escape_text(seq![c]) =~= escape_char(c) + escape_text(Seq::<char>::empty()));
    assert(escape_char(c) + Seq::<char>::empty() =~= escape_char(c));
}

/// Escaping distributes over concatenation.
pub proof fn lemma_escape_text_append(a: Seq<char>, b: Seq<char>)
    ensures
        escape_text(a + b) == escape_text(a) + escape_text(b),
    decreases a,
{
    if a.len() == 0 {
        assert(a + b =~= b);
        assert(escape_text(a) + escape_text(b) =~= escape_text(b));
    } else {
        lemma_escape_text_append(a.skip(1), b);
        assert((a + b).skip(1) =~= a.skip(1) + b);
        assert(escape_text(a) + escape_text(b) =~= escape_char(a[0]) + (escape_text(a.skip(1))
            + escape_text(b)));
    }
}

/// Escape the five HTML-special characters `& < > " '` of the input,
/// leaving every other character unchanged.
pub fn sanitize(input: &str) -> (r: String)
    ensures
        r@ == escape_text(input@),
{
    let n = input.unicode_len();
    let mut r = String::new();
    for i in 0..n
        invariant
            n == input@.len(),
            r@ == escape_text(input@.take(i as int)),
    {
        let c = input.get_char(i);
        if c == '&' {
            r.append("&amp;");
        } else if c == '<' {
            r.append("&lt;");
        } else if c == '>' {
            r.append("&gt;");
        } else if c == '"' {
            r.append("&quot;");
        } else if c == '\'' {
            r.append("&#x27;");
        } else {
            r.push(c);
        }
        proof {
            reveal_strlit("&amp;");
            reveal_strlit("&lt;");
            reveal_strlit("&gt;");
            reveal_strlit("&quot;");
            reveal_strlit("&#x27;");
            assert("&amp;"@ =~= seq!['&', 'a', 'm', 'p', ';']);
            assert("&lt;"@ =~= seq!['&', 'l', 't', ';']);
            assert("&gt;"@ =~= seq!['&', 'g', 't', ';']);
            assert("&quot;"@ =~= seq!['&', 'q', 'u', 'o', 't', ';']);
            assert("&#x27;"@ =~= seq!['&', '#', 'x', '2', '7', ';']);
            let pre = input@.take(i as int);
            lemma_escape_text_append(pre, seq![c]);
            lemma_escape_text_single(c);
            assert(input@.take(i + 1) =~= pre + seq![c]);
        }
    }
    proof {
        assert(input@.take(n as int) =~= input@);
    }
    r
}

/// Escaping leaves a text without special characters unchanged.
pub proof fn lemma_escape_text_safe_identity(s: Seq<char>)
    requires
        forall|i: int| 0 <= i < s.len() ==> !needs_escape(#[trigger] s[i]),
    ensures
        escape_text(s) == s,
    decreases s,
{
    if s.len() == 0 {
        assert(escape_text(s) =~= s);
    } else {
        lemma_escape_text_safe_identity(s.skip(1));
        assert(escape_text(s) =~= seq![s[0]] + s.skip(1));
        assert(seq![s[0]] + s.skip(1) =~= s);
    }
}

/// The replacement that escapes only `&`, leaving every other character as
/// it is; the effect a second round of escaping has on already escaped text.
pub open spec fn amp_escape_char(c: char) -> Seq<char> {
    if c == '&' {
        seq!['&', 'a', 'm', 'p', ';']
    } else {
        seq![c]
    }
}

pub open spec fn amp_escape_text(s: Seq<char>) -> Seq<char>
    decreases s,
{
    if s.len() == 0 {
        Seq::<char>::empty()
    } else {
        amp_escape_char(s[0]) + amp_escape_text(s.skip(1))
    }
}

pub proof fn lemma_amp_escape_text_append(a: Seq<char>, b: Seq<char>)
    ensures
        amp_escape_text(a + b) == amp_escape_text(a) + amp_escape_text(b),
    decreases a,
{
    if a.len() == 0 {
        assert(a + b =~= b);
        assert(amp_escape_text(a) + amp_escape_text(b) =~= amp_escape_text(b));
    } else {
        lemma_amp_escape_text_append(a.skip(1), b);
        assert((a + b).skip(1) =~= a.skip(1) + b);
        assert(amp_escape_text(a) + amp_escape_text(b) =~= amp_escape_char(a[0])
            + (amp_escape_text(a.skip(1)) + amp_escape_text(b)));
    }
}

/// Escaped text contains none of `< > " '`: a second round of escaping can
/// only touch the `&` characters that head the entities of the first round.
pub proof fn lemma_escape_output_has_no_specials(s: Seq<char>)
    ensures
        forall|i: int|
            0 <= i < escape_text(s).len() ==> {
                let c = #[trigger] escape_text(s)[i];
                c != '<' && c != '>' && c != '"' && c != '\''
            },
    decreases s,
{
    if s.len() > 0 {
        lemma_escape_output_has_no_specials(s.skip(1));
        let hd = escape_char(s[0]);
        let tl = escape_text(s.skip(1));
        assert(escape_text(s) == hd + tl);
        assert(forall|i: int|
            0 <= i < hd.len() ==> {
                let c = #[trigger] hd[i];
                c != '<' && c != '>' && c != '"' && c != '\''
            });
        assert forall|i: int| 0 <= i < escape_text(s).len() implies {
            let c = #[trigger] escape_text(s)[i];
            c != '<' && c != '>' && c != '"' && c != '\''
        } by {
            if i < hd.len() {
                assert(escape_text(s)[i] == hd[i]);
            } else {
                assert(escape_text(s)[i] == tl[i - hd.len()]);
            }
        }
    } else {
        assert(escape_text(s) =~= Seq::<char>::empty());
    }
}

/// Escaping already escaped text double-encodes exactly the `&` characters
/// and changes nothing else: a second application of [`escape_text`] acts on
/// its own output as the pure `&` replacement [`amp_escape_text`].
pub proof fn lemma_escape_twice(s: Seq<char>)
    ensures
        escape_text(escape_text(s)) == amp_escape_text(escape_text(s)),
    decreases s,
{
    if s.len() == 0 {
    } else {
        lemma_escape_twice(s.skip(1));
        let hd = escape_char(s[0]);
        let tl = escape_text(s.skip(1));
        lemma_escape_text_append(hd, tl);
        lemma_amp_escape_text_append(hd, tl);
        lemma_escape_char_once_more(s[0]);
    }
}

/// The `&`-only replacement leaves a text without `&` unchanged.
pub proof fn lemma_amp_escape_no_amp_identity(s: Seq<char>)
    requires
        forall|i: int| 0 <= i < s.len() ==> #[trigger] s[i] != '&',
    ensures
        amp_escape_text(s) == s,
    decreases s,
{
    if s.len() == 0 {
        assert(amp_escape_text(s) =~= s);
    } else {
        lemma_amp_escape_no_amp_identity(s.skip(1));
        assert(amp_escape_text(s) =~= seq![s[0]] + s.skip(1));
        assert(seq![s[0]] + s.skip(1) =~= s);
    }
}

/// On the escaped form of a single character, a second escape acts as the
/// pure `&` replacement.
proof fn lemma_escape_char_once_more(c: char)
    ensures
        escape_text(escape_char(c)) == amp_escape_text(escape_char(c)),
{
    let e = escape_char(c);
    if needs_escape(c) {
        let tail = e.skip(1);
        assert(e[0] == '&');
        assert forall|i: int| 0 <= i < tail.len() implies !needs_escape(#[trigger] tail[i])
            && tail[i] != '&' by {
            assert(tail[i] == e[i + 1]);
        }
        lemma_escape_text_safe_identity(tail);
        lemma_amp_escape_no_amp_identity(tail);
        assert(escape_text(e) == escape_char('&') + tail);
        assert(amp_escape_text(e) == amp_escape_char('&') + tail);
    } else {
        assert(e =~= seq![c]);
        lemma_escape_text_single(c);
        assert(seq![c].skip(1) =~= Seq::<char>::empty());
        assert(amp_escape_text(e) =~= amp_escape_char(c) + amp_escape_text(
            Seq::<char>::empty(),
        ));
        assert(amp_escape_char(c) + Seq::<char>::empty() =~= amp_escape_char(c));
    }
}

} // verus!
