use vstd::prelude::*;
use vstd::string::*;

verus! {

/// The output a page under construction accumulates: markup destined for the
/// document head, the rendered body template, and the identifiers of the
/// head fragments already registered.
pub struct Page {
    pub head_ids: Vec<String>,
    pub head: String,
    pub template: String,
}

impl Page {
    /// The identifiers under which head content has been registered so far.
    pub open spec fn ids(self) -> Seq<Seq<char>> {
        self.head_ids.deep_view()
    }

    /// Whether head content was already registered under `id`.
    pub open spec fn registered(self, id: Seq<char>) -> bool {
        self.ids().contains(id)
    }

    pub fn new() -> (r: Page)
        ensures
            r.ids() == Seq::<Seq<char>>::empty(),
            r.head@ == Seq::<char>::empty(),
            r.template@ == Seq::<char>::empty(),
    {
        let r = Page { head_ids: Vec::new(), head: String::new(), template: String::new() };
        proof {
            assert(r.ids() =~= Seq::<Seq<char>>::empty());
        }
        r
    }

    /// Register head content under an identifier.  The first registration
    /// for `id` appends `element` to the head; later registrations under the
    /// same identifier change nothing, so content registered from inside a
    /// loop appears once however often the loop runs.
    pub fn add_elements_to_head(&mut self, id: &str, element: String)
        ensures
            final(self).template == old(self).template,
            old(self).registered(id@) ==> *final(self) == *old(self),
            !old(self).registered(id@) ==> {
                &&& final(self).head@ == old(self).head@ + element@
                &&& final(self).ids() == old(self).ids().push(id@)
            },
    {
        let id_string = id.to_owned();
        let n = self.head_ids.len();
        for i in 0..n
            invariant
                n == self.head_ids@.len(),
                id_string@ == id@,
                *self == *old(self),
                forall|j: int| 0 <= j < i ==> self.ids()[j] != id@,
        {
            proof {
                assert(self.ids()[i as int] == self.head_ids@[i as int]@);
            }
            if self.head_ids[i].eq(&id_string) {
                return ;
            }
        }
        proof {
            assert(!old(self).registered(id@));
        }
        self.head_ids.push(id_string);
        self.head.append(element.as_str());
        proof {
            assert(final(self).ids() =~= old(self).ids().push(id@));
        }
    }

    /// The full hypertext document for this page: the fixed shell with the
    /// accumulated head content inside `head` and the rendered body inside
    /// `body`.
    pub fn to_html_document(&self) -> (r: String)
        ensures
            r@ == "<!doctype html><html lang=\"en\"><head><meta name=\"viewport\" content=\"width=device-width, initial-scale=1.0\" /><meta charset=\"utf-8\" />"@
                + self.head@ + "</head><body>"@ + self.template@ + "</body></html>"@,
    {
        let mut r =
            "<!doctype html><html lang=\"en\"><head><meta name=\"viewport\" content=\"width=device-width, initial-scale=1.0\" /><meta charset=\"utf-8\" />".to_owned();
        r.append(self.head.as_str());
        r.append("</head><body>");
        r.append(self.template.as_str());
        r.append("</body></html>");
        r
    }
}

/// The result of registering head content under `id`: the pair of the
/// identifier set and the head text after the call, as
/// [`Page::add_elements_to_head`] produces it.
pub open spec fn register_head(
    ids: Seq<Seq<char>>,
    head: Seq<char>,
    id: Seq<char>,
    element: Seq<char>,
) -> (Seq<Seq<char>>, Seq<char>) {
    if ids.contains(id) {
        (ids, head)
    } else {
        (ids.push(id), head + element)
    }
}

/// `n` registrations of the same content under the same identifier, in
/// sequence.
pub open spec fn register_head_times(
    ids: Seq<Seq<char>>,
    head: Seq<char>,
    id: Seq<char>,
    element: Seq<char>,
    n: nat,
) -> (Seq<Seq<char>>, Seq<char>)
    decreases n,
{
    if n == 0 {
        (ids, head)
    } else {
        let once = register_head(ids, head, id, element);
        register_head_times(once.0, once.1, id, element, (n - 1) as nat)
    }
}

/// Registering the same head content any positive number of times leaves
/// exactly what one registration leaves: every registration after the first
/// is a no-op.
pub proof fn lemma_repeated_head_registration(
    ids: Seq<Seq<char>>,
    head: Seq<char>,
    id: Seq<char>,
    element: Seq<char>,
    n: nat,
)
    requires
        n >= 1,
    ensures
        register_head_times(ids, head, id, element, n) == register_head(ids, head, id, element),
    decreases n,
{
    let once = register_head(ids, head, id, element);
    if n == 1 {
        assert(register_head_times(once.0, once.1, id, element, 0) == once);
    } else {
        assert(once.0.contains(id)) by {
            if ids.contains(id) {
            } else {
                assert(once.0 == ids.push(id));
                assert(once.0[once.0.len() - 1] == id);
            }
        }
        assert(register_head(once.0, once.1, id, element) == (once.0, once.1));
        lemma_repeated_head_registration(once.0, once.1, id, element, (n - 1) as nat);
    }
}

} // verus!
