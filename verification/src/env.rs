use vstd::prelude::*;
use vstd::string::*;

verus! {

/// The runtime values one expansion of a template supplies for its opaque
/// host payloads, each addressed by the payload's canonical source text:
/// evaluated expression texts, boolean values for conditions and toggles,
/// one sub-environment per loop iteration (carrying the values the binder
/// brings into scope), the index of the matching case for each match
/// subject, and the rendered output of each component invocation, keyed by
/// the component's name together with its field payloads.  A component's
/// other effect — registering head content on the page it is handed — is
/// the host's own and outside this model.
///
/// The compiler never evaluates host code; this structure stands for the
/// host's part of the bargain, so that the meaning of a compiled template
/// can be stated and tested for every choice of runtime values.
pub struct Env {
    pub texts: Vec<(String, String)>,
    pub flags: Vec<(String, bool)>,
    pub iters: Vec<(String, Vec<Env>)>,
    pub choices: Vec<(String, usize)>,
    pub parts: Vec<(String, String)>,
}

/// First value bound to `key`, or the empty text.
pub open spec fn text_lookup(entries: Seq<(String, String)>, key: Seq<char>) -> Seq<char>
    decreases entries,
{
    if entries.len() == 0 {
        Seq::<char>::empty()
    } else if entries[0].0@ == key {
        entries[0].1@
    } else {
        text_lookup(entries.skip(1), key)
    }
}

/// First boolean bound to `key`, or false.
pub open spec fn flag_lookup(entries: Seq<(String, bool)>, key: Seq<char>) -> bool
    decreases entries,
{
    if entries.len() == 0 {
        false
    } else if entries[0].0@ == key {
        entries[0].1
    } else {
        flag_lookup(entries.skip(1), key)
    }
}

/// First iteration sequence bound to `key`, or no iterations.
pub open spec fn iter_lookup(entries: Seq<(String, Vec<Env>)>, key: Seq<char>) -> Seq<Env>
    decreases entries,
{
    if entries.len() == 0 {
        Seq::<Env>::empty()
    } else if entries[0].0@ == key {
        entries[0].1@
    } else {
        iter_lookup(entries.skip(1), key)
    }
}

/// First case index bound to `key`, if any.
pub open spec fn choice_lookup(entries: Seq<(String, usize)>, key: Seq<char>) -> Option<usize>
    decreases entries,
{
    if entries.len() == 0 {
        None
    } else if entries[0].0@ == key {
        Some(entries[0].1)
    } else {
        choice_lookup(entries.skip(1), key)
    }
}

impl Env {
    /// Evaluated text of the expression payload named `key`.
    pub open spec fn text(self, key: Seq<char>) -> Seq<char> {
        text_lookup(self.texts@, key)
    }

    /// Boolean value of the condition or toggle payload named `key`.
    pub open spec fn flag(self, key: Seq<char>) -> bool {
        flag_lookup(self.flags@, key)
    }

    /// Per-iteration environments of the iterable payload named `key`.
    pub open spec fn iterations(self, key: Seq<char>) -> Seq<Env> {
        iter_lookup(self.iters@, key)
    }

    /// Index of the case the subject named `key` selects, if any.
    pub open spec fn choice(self, key: Seq<char>) -> Option<usize> {
        choice_lookup(self.choices@, key)
    }

    /// Rendered output of the component invocation whose name and field
    /// payloads form `key`.
    pub open spec fn part(self, key: Seq<char>) -> Seq<char> {
        text_lookup(self.parts@, key)
    }

    /// An environment that binds nothing.
    pub fn new() -> (r: Env)
        ensures
            r.texts@ == Seq::<(String, String)>::empty(),
            r.flags@ == Seq::<(String, bool)>::empty(),
            r.iters@ == Seq::<(String, Vec<Env>)>::empty(),
            r.choices@ == Seq::<(String, usize)>::empty(),
            r.parts@ == Seq::<(String, String)>::empty(),
    {
        Env {
            texts: Vec::new(),
            flags: Vec::new(),
            iters: Vec::new(),
            choices: Vec::new(),
            parts: Vec::new(),
        }
    }

    pub fn text_of(&self, key: &String) -> (r: String)
        ensures
            r@ == self.text(key@),
    {
        proof {
            assert(self.texts@.skip(0) =~= self.texts@);
        }
        text_scan(&self.texts, 0, key)
    }

    pub fn flag_of(&self, key: &String) -> (r: bool)
        ensures
            r == self.flag(key@),
    {
        proof {
            assert(self.flags@.skip(0) =~= self.flags@);
        }
        flag_scan(&self.flags, 0, key)
    }

    pub fn part_of(&self, key: &String) -> (r: String)
        ensures
            r@ == self.part(key@),
    {
        proof {
            assert(self.parts@.skip(0) =~= self.parts@);
        }
        text_scan(&self.parts, 0, key)
    }

    pub fn choice_of(&self, key: &String) -> (r: Option<usize>)
        ensures
            r == self.choice(key@),
    {
        proof {
            assert(self.choices@.skip(0) =~= self.choices@);
        }
        choice_scan(&self.choices, 0, key)
    }

    pub fn iterations_of(&self, key: &String) -> (r: Option<&Vec<Env>>)
        ensures
            match r {
                Some(v) => v@ == self.iterations(key@),
                None => self.iterations(key@) == Seq::<Env>::empty(),
            },
    {
        proof {
            assert(self.iters@.skip(0) =~= self.iters@);
        }
        iter_scan(&self.iters, 0, key)
    }
}

fn text_scan(entries: &Vec<(String, String)>, i: usize, key: &String) -> (r: String)
    requires
        i <= entries@.len(),
    ensures
        r@ == text_lookup(entries@.skip(i as int), key@),
    decreases entries@.len() - i,
{
    proof {
        if i < entries@.len() {
            assert(entries@.skip(i as int)[0] == entries@[i as int]);
            assert(entries@.skip(i as int).skip(1) =~= entries@.skip(i as int + 1));
        } else {
            assert(entries@.skip(i as int).len() == 0);
        }
    }
    if i >= entries.len() {
        String::new()
    } else if entries[i].0.eq(key) {
        entries[i].1.clone()
    } else {
        text_scan(entries, i + 1, key)
    }
}

fn flag_scan(entries: &Vec<(String, bool)>, i: usize, key: &String) -> (r: bool)
    requires
        i <= entries@.len(),
    ensures
        r == flag_lookup(entries@.skip(i as int), key@),
    decreases entries@.len() - i,
{
    proof {
        if i < entries@.len() {
            assert(entries@.skip(i as int)[0] == entries@[i as int]);
            assert(entries@.skip(i as int).skip(1) =~= entries@.skip(i as int + 1));
        } else {
            assert(entries@.skip(i as int).len() == 0);
        }
    }
    if i >= entries.len() {
        false
    } else if entries[i].0.eq(key) {
        entries[i].1
    } else {
        flag_scan(entries, i + 1, key)
    }
}

fn choice_scan(entries: &Vec<(String, usize)>, i: usize, key: &String) -> (r: Option<usize>)
    requires
        i <= entries@.len(),
    ensures
        r == choice_lookup(entries@.skip(i as int), key@),
    decreases entries@.len() - i,
{
    proof {
        if i < entries@.len() {
            assert(entries@.skip(i as int)[0] == entries@[i as int]);
            assert(entries@.skip(i as int).skip(1) =~= entries@.skip(i as int + 1));
        } else {
            assert(entries@.skip(i as int).len() == 0);
        }
    }
    if i >= entries.len() {
        None
    } else if entries[i].0.eq(key) {
        Some(entries[i].1)
    } else {
        choice_scan(entries, i + 1, key)
    }
}

fn iter_scan<'a>(entries: &'a Vec<(String, Vec<Env>)>, i: usize, key: &String) -> (r: Option<
    &'a Vec<Env>,
>)
    requires
        i <= entries@.len(),
    ensures
        match r {
            Some(v) => v@ == iter_lookup(entries@.skip(i as int), key@),
            None => iter_lookup(entries@.skip(i as int), key@) == Seq::<Env>::empty(),
        },
    decreases entries@.len() - i,
{
    proof {
        if i < entries@.len() {
            assert(entries@.skip(i as int)[0] == entries@[i as int]);
            assert(entries@.skip(i as int).skip(1) =~= entries@.skip(i as int + 1));
        } else {
            assert(entries@.skip(i as int).len() == 0);
        }
    }
    if i >= entries.len() {
        None
    } else if entries[i].0.eq(key) {
        Some(&entries[i].1)
    } else {
        iter_scan(entries, i + 1, key)
    }
}

} // verus!
