//! Stored queries: named queries persisted in the store, listed under the
//! query directory of the mount.

use vstd::prelude::*;
use vstd::string::StringExecFns;

verus! {

/// A named query persisted in the store.
pub struct StoredQuery {
    pub name: String,
    pub query: String,
}

impl StoredQuery {
    /// Builds a stored query from its two columns.
    pub fn new(name: String, query: String) -> (r: StoredQuery)
        ensures
            r.name == name,
            r.query == query,
    {
        StoredQuery { name, query }
    }

    /// The plain rendering: `name @ [query]`.
    pub fn render(&self) -> (r: String)
        ensures
            r@ == self.name@ + " @ ["@ + self.query@ + "]"@,
    {
        let mut s = self.name.clone();
        s.append(" @ [");
        s.append(self.query.as_str());
        s.append("]");
        s
    }
}

/// The query text with every `/` replaced by `_`.
pub open spec fn sanitised_query(q: Seq<char>) -> Seq<char> {
    q.map_values(|c: char| if c == '/' { '_' } else { c })
}

/// A view of a [`StoredQuery`] whose rendering is safe to use as a file
/// name: any `/` inside the query text is displayed as `_`.
pub struct SanitisedStoredQuery<'a>(pub &'a StoredQuery);

impl<'a> SanitisedStoredQuery<'a> {
    /// The underlying query text, unsanitised.
    pub fn query(&self) -> (r: &str)
        ensures
            r@ == self.0.query@,
    {
        self.0.query.as_str()
    }

    /// The stored query's name.
    pub fn name(&self) -> (r: &str)
        ensures
            r@ == self.0.name@,
    {
        self.0.name.as_str()
    }

    /// The display rendering: `name @ [query]`, with `/` in the query text
    /// shown as `_`.
    pub fn render(&self) -> (r: String)
        ensures
            r@ == self.0.name@ + " @ ["@ + sanitised_query(self.0.query@) + "]"@,
    {
        let mut s = self.0.name.clone();
        s.append(" @ [");
        let qs = crate::text::str_to_chars(self.0.query.as_str());
        let mut cleaned: Vec<char> = Vec::new();
        let mut i: usize = 0;
        while i < qs.len()
            invariant
                i <= qs@.len(),
                cleaned@ == sanitised_query(self.0.query@).take(i as int),
                qs@ == self.0.query@,
            decreases qs@.len() - i,
        {
            let c = qs[i];
            let c2 = if c == '/' {
                '_'
            } else {
                c
            };
            cleaned.push(c2);
            i += 1;
            proof {
                let m = sanitised_query(self.0.query@);
                assert(m[i - 1] == c2);
                assert(m.take(i as int) =~= m.take(i - 1).push(m[i - 1]));
            }
        }
        proof {
            let m = sanitised_query(self.0.query@);
            assert(m.take(m.len() as int) =~= m);
        }
        let cleaned_str = crate::text::chars_to_string(&cleaned);
        s.append(cleaned_str.as_str());
        s.append("]");
        s
    }
}

impl<'a> From<&'a StoredQuery> for SanitisedStoredQuery<'a> {
    fn from(value: &'a StoredQuery) -> (r: Self) {
        SanitisedStoredQuery(value)
    }
}

impl<'a> vstd::std_specs::convert::FromSpecImpl<&'a StoredQuery> for SanitisedStoredQuery<'a> {
    open spec fn obeys_from_spec() -> bool {
        true
    }

    open spec fn from_spec(v: &'a StoredQuery) -> Self {
        SanitisedStoredQuery(v)
    }
}

} // verus!
