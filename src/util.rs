//! Identifier quoting and string helpers for building SQL text.
use vstd::prelude::*;

verus! {

/// The text `s` wrapped in double quotes.
pub open spec fn quoted(s: Seq<char>) -> Seq<char> {
    seq!['"'] + s + seq!['"']
}

/// An identifier can be quoted when it holds no double quote.
pub open spec fn quotable(s: Seq<char>) -> bool {
    !s.contains('"')
}

/// `"schema".` when a namespace is given, then the quoted table name.
pub open spec fn table_name_sql(schema: Option<Seq<char>>, table: Seq<char>) -> Seq<char> {
    match schema {
        Some(s) => quoted(s) + seq!['.'] + quoted(table),
        None => quoted(table),
    }
}

pub open spec fn opt_view(s: &Option<String>) -> Option<Seq<char>> {
    match s {
        Some(x) => Some(x@),
        None => None,
    }
}

pub open spec fn opt_quotable(s: &Option<String>) -> bool {
    match s {
        Some(x) => quotable(x@),
        None => true,
    }
}

/// Quoted elements of `s`, separated by `sep`.
pub open spec fn quoted_join(s: Seq<Seq<char>>, sep: Seq<char>) -> Seq<char>
    decreases s.len(),
{
    if s.len() == 0 {
        seq![]
    } else if s.len() == 1 {
        quoted(s[0])
    } else {
        quoted_join(s.drop_last(), sep) + sep + quoted(s.last())
    }
}

pub open spec fn views(v: Seq<String>) -> Seq<Seq<char>> {
    v.map_values(|x: String| x@)
}

pub open spec fn all_quotable(v: Seq<String>) -> bool {
    forall|i: int| 0 <= i < v.len() ==> quotable(#[trigger] v[i]@)
}

/// Whether two strings hold the same characters.
pub fn str_eq(a: &str, b: &str) -> (r: bool)
    ensures
        r == (a@ == b@),
{
    let n = a.unicode_len();
    if n != b.unicode_len() {
        return false;
    }
    let mut i: usize = 0;
    while i < n
        invariant
            n == a@.len(),
            n == b@.len(),
            i <= n,
            forall|j: int| 0 <= j < i ==> a@[j] == b@[j],
        decreases n - i,
    {
        if a.get_char(i) != b.get_char(i) {
            return false;
        }
        i = i + 1;
    }
    assert(a@ =~= b@);
    true
}

/// Whether `s` holds the character `c`.
pub fn contains_char(s: &str, c: char) -> (r: bool)
    ensures
        r == s@.contains(c),
{
    let n = s.unicode_len();
    let mut i: usize = 0;
    while i < n
        invariant
            n == s@.len(),
            i <= n,
            forall|j: int| 0 <= j < i ==> s@[j] != c,
        decreases n - i,
    {
        if s.get_char(i) == c {
            return true;
        }
        i = i + 1;
    }
    false
}

pub fn opt_str_eq(a: &Option<String>, b: &Option<String>) -> (r: bool)
    ensures
        r == (opt_view(a) == opt_view(b)),
{
    match (a, b) {
        (Some(x), Some(y)) => str_eq(x.as_str(), y.as_str()),
        (None, None) => true,
        _ => false,
    }
}

pub fn copy_str(s: &String) -> (r: String)
    ensures
        r@ == s@,
{
    s.clone()
}

/// `s` in double quotes, or `None` when `s` holds a double quote and so cannot
/// be quoted safely.
pub fn quote_identifier(s: &str) -> (r: Option<String>)
    ensures
        r is Some <==> quotable(s@),
        r matches Some(q) ==> q@ == quoted(s@),
{
    if contains_char(s, '"') {
        return None;
    }
    let mut q = String::new();
    q.push_quoted(s);
    assert(q@ =~= quoted(s@));
    Some(q)
}

/// Relies on String::push: the character is appended at the end.
#[verifier::external_body]
pub(crate) fn push_char(buf: &mut String, c: char)
    ensures
        final(buf)@ == old(buf)@ + seq![c],
{
    buf.push(c)
}

/// Appending SQL text to a buffer.
pub trait SqlExtension: Sized + View<V = Seq<char>> {
    /// Appends `s` in double quotes.
    fn push_quoted(&mut self, s: &str)
        requires
            quotable(s@),
        ensures
            final(self)@ == old(self)@ + quoted(s@),
    ;

    /// Appends a table name, qualified by its namespace when one is given.
    fn push_table_name(&mut self, schema: &Option<String>, table: &str)
        requires
            opt_quotable(schema),
            quotable(table@),
        ensures
            final(self)@ == old(self)@ + table_name_sql(opt_view(schema), table@),
    ;

    /// Appends each string quoted, separated by `separator`.
    fn push_quoted_sequence(&mut self, items: &Vec<String>, separator: &str)
        requires
            all_quotable(items@),
        ensures
            final(self)@ == old(self)@ + quoted_join(views(items@), separator@),
    ;
}

impl SqlExtension for String {
    fn push_quoted(&mut self, s: &str) {
        self.append("\"");
        self.append(s);
        self.append("\"");
        proof {
            reveal_strlit("\"");
        }
        assert(self@ =~= old(self)@ + quoted(s@));
    }

    fn push_table_name(&mut self, schema: &Option<String>, table: &str) {
        if let Some(schema) = schema {
            self.push_quoted(schema.as_str());
            self.append(".");
            proof {
                reveal_strlit(".");
            }
        }
        self.push_quoted(table);
        assert(self@ =~= old(self)@ + table_name_sql(opt_view(schema), table@));
    }

    fn push_quoted_sequence(&mut self, items: &Vec<String>, separator: &str) {
        let mut i: usize = 0;
        while i < items.len()
            invariant
                i <= items@.len(),
                all_quotable(items@),
                self@ == old(self)@ + quoted_join(views(items@.subrange(0, i as int)), separator@),
            decreases items@.len() - i,
        {
            if i > 0 {
                self.append(separator);
            }
            assert(quotable(items@[i as int]@));
            self.push_quoted(items[i].as_str());
            proof {
                let pre = items@.subrange(0, i as int);
                let post = items@.subrange(0, i + 1);
                assert(post.drop_last() =~= pre);
                assert(views(post).drop_last() =~= views(pre));
                assert(views(post).last() == items@[i as int]@);
            }
            i = i + 1;
        }
        assert(items@.subrange(0, items@.len() as int) =~= items@);
    }
}

} // verus!

verus! {

pub fn strings_eq(a: &Vec<String>, b: &Vec<String>) -> (r: bool)
    ensures
        r == (views(a@) == views(b@)),
{
    if a.len() != b.len() {
        assert(views(a@).len() != views(b@).len());
        return false;
    }
    let mut i: usize = 0;
    while i < a.len()
        invariant
            a@.len() == b@.len(),
            i <= a@.len(),
            forall|j: int| 0 <= j < i ==> a@[j]@ == b@[j]@,
        decreases a@.len() - i,
    {
        if !str_eq(a[i].as_str(), b[i].as_str()) {
            assert(views(a@)[i as int] != views(b@)[i as int]);
            return false;
        }
        i = i + 1;
    }
    assert(views(a@) =~= views(b@));
    true
}

pub fn copy_strs(a: &Vec<String>) -> (r: Vec<String>)
    ensures
        views(r@) == views(a@),
{
    let mut r: Vec<String> = Vec::new();
    let mut i: usize = 0;
    while i < a.len()
        invariant
            i <= a@.len(),
            r@.len() == i,
            forall|j: int| 0 <= j < i ==> r@[j]@ == a@[j]@,
        decreases a@.len() - i,
    {
        r.push(copy_str(&a[i]));
        i = i + 1;
    }
    assert(views(r@) =~= views(a@));
    r
}

pub fn copy_opt_str(a: &Option<String>) -> (r: Option<String>)
    ensures
        opt_view(&r) == opt_view(a),
{
    match a {
        Some(s) => Some(copy_str(s)),
        None => None,
    }
}

} // verus!

verus! {

/// Whether every string can be quoted.
pub fn all_can_quote(v: &Vec<String>) -> (r: bool)
    ensures
        r == all_quotable(v@),
{
    let mut i: usize = 0;
    while i < v.len()
        invariant
            i <= v@.len(),
            forall|j: int| 0 <= j < i ==> quotable(#[trigger] v@[j]@),
        decreases v@.len() - i,
    {
        if contains_char(v[i].as_str(), '"') {
            return false;
        }
        i = i + 1;
    }
    true
}

pub fn opt_can_quote(s: &Option<String>) -> (r: bool)
    ensures
        r == opt_quotable(s),
{
    match s {
        Some(x) => !contains_char(x.as_str(), '"'),
        None => true,
    }
}

} // verus!
