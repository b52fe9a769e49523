//! Stream names in their parsed form.
//!
//! A stream name follows the grammar `category[+typeTag]*[-identifier]`.
//! A name without an identifier is a category stream: it aggregates, for
//! ordered reading, all identifier streams that share its category and
//! type tags.
use vstd::prelude::*;

verus! {

/// The parsed form of a stream name.
pub struct StreamName {
    pub category: String,
    pub types: Vec<String>,
    pub id: Option<String>,
}

/// The mathematical key of a stream name: the views of its parts.
#[verifier::ext_equal]
pub ghost struct SnKey {
    pub category: Seq<char>,
    pub types: Seq<Seq<char>>,
    pub id: Option<Seq<char>>,
}

/// The key with the identifier stripped: what records of a category
/// stream read have in common.
pub open spec fn cat_key(k: SnKey) -> SnKey {
    SnKey { category: k.category, types: k.types, id: None }
}

/// The key of an identifier stream with no type tags.
pub open spec fn ident_key(category: Seq<char>, id: Seq<char>) -> SnKey {
    SnKey { category: category, types: Seq::empty(), id: Some(id) }
}

/// The key of a category stream with no type tags.
pub open spec fn category_key(category: Seq<char>) -> SnKey {
    SnKey { category: category, types: Seq::empty(), id: None }
}

/// The textual rendering of type tags: a '+' before each tag.
pub open spec fn render_types(ts: Seq<Seq<char>>) -> Seq<char>
    decreases ts.len(),
{
    if ts.len() == 0 {
        Seq::empty()
    } else {
        render_types(ts.drop_last()) + seq!['+'] + ts.last()
    }
}

/// The textual rendering of a stream name key.
pub open spec fn render_key(k: SnKey) -> Seq<char> {
    k.category + render_types(k.types) + (match k.id {
        Some(i) => seq!['-'] + i,
        None => Seq::empty(),
    })
}

impl StreamName {
    /// The key of this name.
    pub open spec fn key(self) -> SnKey {
        SnKey { category: self.category@, types: self.types.deep_view(), id: self.id.deep_view() }
    }

    /// Builds a category stream name with no type tags.
    pub fn category(category: &str) -> (r: StreamName)
        ensures
            r.key() == category_key(category@),
    {
        let r = StreamName { category: category.to_owned(), types: Vec::new(), id: None };
        proof {
            assert(r.types.deep_view() =~= Seq::<Seq<char>>::empty());
        }
        r
    }

    /// Builds the identifier stream name of one entity under a category.
    pub fn identified(category: &str, id: &str) -> (r: StreamName)
        ensures
            r.key() == ident_key(category@, id@),
    {
        let r = StreamName {
            category: category.to_owned(),
            types: Vec::new(),
            id: Some(id.to_owned()),
        };
        proof {
            assert(r.types.deep_view() =~= Seq::<Seq<char>>::empty());
        }
        r
    }

    /// Whether this name is a category stream (it carries no identifier).
    pub open spec fn is_category_spec(self) -> bool {
        self.id is None
    }

    /// Returns whether this name is a category stream.
    pub fn is_category(&self) -> (r: bool)
        ensures
            r == self.is_category_spec(),
    {
        self.id.is_none()
    }

    /// Renders the name as text: `category[+typeTag]*[-identifier]`.
    pub fn render(&self) -> (r: String)
        ensures
            r@ == render_key(self.key()),
    {
        let ghost k = self.key();
        let mut out: String = self.category.clone();
        let mut i: usize = 0;
        while i < self.types.len()
            invariant
                0 <= i <= self.types.len(),
                k == self.key(),
                out@ == k.category + render_types(k.types.take(i as int)),
            decreases self.types.len() - i,
        {
            out.append("+");
            out.append(self.types[i].as_str());
            proof {
                reveal_strlit("+");
                let t = k.types.take(i + 1);
                assert(t.drop_last() =~= k.types.take(i as int));
                assert(t.last() == self.types@[i as int]@);
                assert(out@ =~= k.category + render_types(t));
            }
            i += 1;
        }
        proof {
            assert(k.types.take(self.types.len() as int) =~= k.types);
        }
        match &self.id {
            Some(ident) => {
                out.append("-");
                out.append(ident.as_str());
                proof {
                    reveal_strlit("-");
                    assert(out@ =~= render_key(k));
                }
            },
            None => {
                proof {
                    assert(out@ =~= render_key(k));
                }
            },
        }
        out
    }
}

/// Compares two names for exactly the same stream.
pub fn same_stream(a: &StreamName, b: &StreamName) -> (r: bool)
    ensures
        r == (a.key() == b.key()),
{
    if !same_category_types(a, b) {
        return false;
    }
    match (&a.id, &b.id) {
        (Some(x), Some(y)) => {
            let r = x.eq(y);
            proof {
                if r {
                    assert(a.key() =~= b.key());
                } else {
                    assert(a.key().id != b.key().id);
                }
            }
            r
        },
        (None, None) => {
            proof {
                assert(a.key() =~= b.key());
            }
            true
        },
        _ => {
            assert(a.key().id != b.key().id);
            false
        },
    }
}

/// Compares the category and type tags of two names, ignoring identifiers.
pub fn same_category_types(a: &StreamName, b: &StreamName) -> (r: bool)
    ensures
        r == (cat_key(a.key()) == cat_key(b.key())),
{
    if !(a.category == b.category) {
        assert(cat_key(a.key()).category != cat_key(b.key()).category);
        return false;
    }
    if a.types.len() != b.types.len() {
        assert(cat_key(a.key()).types.len() != cat_key(b.key()).types.len());
        return false;
    }
    let n = a.types.len();
    let mut i: usize = 0;
    while i < n
        invariant
            0 <= i <= n,
            n == a.types.len(),
            n == b.types.len(),
            forall|j: int| 0 <= j < i ==> a.types.deep_view()[j] == b.types.deep_view()[j],
        decreases n - i,
    {
        if !(a.types[i] == b.types[i]) {
            assert(a.types.deep_view()[i as int] != b.types.deep_view()[i as int]);
            return false;
        }
        i += 1;
    }
    proof {
        assert(a.types.deep_view() =~= b.types.deep_view());
        assert(cat_key(a.key()) =~= cat_key(b.key()));
    }
    true
}

} // verus!
