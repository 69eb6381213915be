//! Table naming, the options store and multisite resolution.

use vstd::prelude::*;
use crate::text::{
    append_chars, chars_eq, chars_of, copy_string, decimal, eq_ignore_case, eq_ignore_case_exec,
    starts_with, starts_with_exec, string_of, strs, u64_to_chars, KeyedList, pair_views,
};

verus! {

/// Connection settings for the WordPress database.
#[derive(Debug, Clone)]
pub struct DatabaseConfig {
    pub host: String,
    pub user: String,
    pub password: String,
    pub database: String,
    pub table_prefix: String,
}

impl Default for DatabaseConfig {
    fn default() -> (r: Self)
        ensures
            r.host@ == "localhost"@,
            r.user@ == "root"@,
            r.password@ == Seq::<char>::empty(),
            r.database@ == "wordpress"@,
            r.table_prefix@ == "wp_"@,
    {
        DatabaseConfig {
            host: string_of(&chars_of("localhost")),
            user: string_of(&chars_of("root")),
            password: String::new(),
            database: string_of(&chars_of("wordpress")),
            table_prefix: string_of(&chars_of("wp_")),
        }
    }
}

#[derive(Debug, Clone)]
pub enum DatabaseError {
    InvalidTablePrefix(String),
    InvalidBlogId(u64),
}

pub open spec fn prefix_char(c: char) -> bool {
    ('a' <= c && c <= 'z') || ('A' <= c && c <= 'Z') || ('0' <= c && c <= '9') || c == '_'
}

/// Non-empty, and only ASCII letters, digits and `_`.
pub open spec fn valid_table_prefix(p: Seq<char>) -> bool {
    p.len() > 0 && forall|i: int| 0 <= i < p.len() ==> prefix_char(#[trigger] p[i])
}

fn is_valid_prefix(p: &[char]) -> (r: bool)
    ensures
        r == valid_table_prefix(p@),
{
    if p.len() == 0 {
        return false;
    }
    let mut k: usize = 0;
    while k < p.len()
        invariant
            k <= p@.len(),
            forall|i: int| 0 <= i < k ==> prefix_char(#[trigger] p@[i]),
        decreases p@.len() - k,
    {
        let c = p[k];
        if !(('a' <= c && c <= 'z') || ('A' <= c && c <= 'Z') || ('0' <= c && c <= '9') || c
            == '_') {
            assert(!prefix_char(p@[k as int]));
            return false;
        }
        k += 1;
    }
    true
}

/// Validates a WordPress table prefix using core-compatible constraints.
pub fn validate_table_prefix(prefix: &str) -> (r: Result<(), DatabaseError>)
    ensures
        valid_table_prefix(prefix@) ==> r is Ok,
        !valid_table_prefix(prefix@) ==> (r matches Err(DatabaseError::InvalidTablePrefix(p))
            && p@ == prefix@),
{
    let p = chars_of(prefix);
    if is_valid_prefix(&p) {
        Ok(())
    } else {
        Err(DatabaseError::InvalidTablePrefix(string_of(&p)))
    }
}

#[derive(Debug, Clone, Copy, PartialEq, Eq, Structural)]
pub enum TableScope {
    Global,
    Blog,
}

#[derive(Debug, Clone, Copy)]
pub struct TableDefinition {
    pub logical_name: &'static str,
    pub scope: TableScope,
}

pub open spec fn core_table_list() -> Seq<(Seq<char>, TableScope)> {
    seq![
        ("posts"@, TableScope::Blog),
        ("postmeta"@, TableScope::Blog),
        ("comments"@, TableScope::Blog),
        ("commentmeta"@, TableScope::Blog),
        ("terms"@, TableScope::Blog),
        ("term_taxonomy"@, TableScope::Blog),
        ("term_relationships"@, TableScope::Blog),
        ("termmeta"@, TableScope::Blog),
        ("options"@, TableScope::Blog),
        ("links"@, TableScope::Blog),
        ("users"@, TableScope::Global),
        ("usermeta"@, TableScope::Global),
        ("blogs"@, TableScope::Global),
        ("blogmeta"@, TableScope::Global),
        ("registration_log"@, TableScope::Global),
        ("blog_versions"@, TableScope::Global),
        ("site"@, TableScope::Global),
        ("sitemeta"@, TableScope::Global),
        ("signups"@, TableScope::Global),
    ]
}

/// The WordPress core tables, per-blog tables first.
pub fn core_tables() -> (r: Vec<TableDefinition>)
    ensures
        r@.len() == core_table_list().len(),
        forall|i: int|
            0 <= i < r@.len() ==> (#[trigger] r@[i]).logical_name@ == core_table_list()[i].0
                && r@[i].scope == core_table_list()[i].1,
{
    let r = vec![
        TableDefinition { logical_name: "posts", scope: TableScope::Blog },
        TableDefinition { logical_name: "postmeta", scope: TableScope::Blog },
        TableDefinition { logical_name: "comments", scope: TableScope::Blog },
        TableDefinition { logical_name: "commentmeta", scope: TableScope::Blog },
        TableDefinition { logical_name: "terms", scope: TableScope::Blog },
        TableDefinition { logical_name: "term_taxonomy", scope: TableScope::Blog },
        TableDefinition { logical_name: "term_relationships", scope: TableScope::Blog },
        TableDefinition { logical_name: "termmeta", scope: TableScope::Blog },
        TableDefinition { logical_name: "options", scope: TableScope::Blog },
        TableDefinition { logical_name: "links", scope: TableScope::Blog },
        TableDefinition { logical_name: "users", scope: TableScope::Global },
        TableDefinition { logical_name: "usermeta", scope: TableScope::Global },
        TableDefinition { logical_name: "blogs", scope: TableScope::Global },
        TableDefinition { logical_name: "blogmeta", scope: TableScope::Global },
        TableDefinition { logical_name: "registration_log", scope: TableScope::Global },
        TableDefinition { logical_name: "blog_versions", scope: TableScope::Global },
        TableDefinition { logical_name: "site", scope: TableScope::Global },
        TableDefinition { logical_name: "sitemeta", scope: TableScope::Global },
        TableDefinition { logical_name: "signups", scope: TableScope::Global },
    ];
    r
}

/// The concrete table name: global tables and blog 1 use the base prefix,
/// other blogs add `{id}_`; no blog id means blog 1.
pub open spec fn table_name(prefix: Seq<char>, name: Seq<char>, scope: TableScope, blog_id: Option<
    u64,
>) -> Seq<char> {
    let id = match blog_id {
        Some(b) => b,
        None => 1,
    };
    if scope == TableScope::Global || id == 1 {
        prefix + name
    } else {
        prefix + decimal(id as nat) + seq!['_'] + name
    }
}

pub open spec fn blog_id_invalid(scope: TableScope, blog_id: Option<u64>) -> bool {
    scope == TableScope::Blog && blog_id == Some(0u64)
}

/// Resolves a logical table name to its concrete table name.
pub fn resolve_table_name(table_prefix: &str, table: &TableDefinition, blog_id: Option<u64>) -> (r:
    Result<String, DatabaseError>)
    ensures
        !valid_table_prefix(table_prefix@) ==> (r matches Err(DatabaseError::InvalidTablePrefix(p))
            && p@ == table_prefix@),
        valid_table_prefix(table_prefix@) && blog_id_invalid(table.scope, blog_id) ==> r matches Err(
            DatabaseError::InvalidBlogId(0),
        ),
        valid_table_prefix(table_prefix@) && !blog_id_invalid(table.scope, blog_id) ==> (r matches Ok(
            n,
        ) && n@ == table_name(table_prefix@, table.logical_name@, table.scope, blog_id)),
{
    validate_table_prefix(table_prefix)?;
    let mut out = chars_of(table_prefix);
    if table.scope == TableScope::Blog {
        let id = match blog_id {
            Some(b) => b,
            None => 1,
        };
        if id == 0 {
            return Err(DatabaseError::InvalidBlogId(0));
        }
        if id != 1 {
            let d = u64_to_chars(id);
            append_chars(&mut out, &d);
            out.push('_');
        }
    }
    let name = chars_of(table.logical_name);
    append_chars(&mut out, &name);
    proof {
        let id = match blog_id {
            Some(b) => b,
            None => 1u64,
        };
        if table.scope == TableScope::Blog && id != 1 {
            assert(out@ =~= table_prefix@ + decimal(id as nat) + seq!['_'] + table.logical_name@);
        }
    }
    Ok(string_of(&out))
}

pub open spec fn core_table_names(prefix: Seq<char>, blog_id: Option<u64>) -> Seq<Seq<char>> {
    core_table_list().map_values(
        |t: (Seq<char>, TableScope)| table_name(prefix, t.0, t.1, blog_id),
    )
}

/// Concrete names of every core table, in the order of `core_tables`.
pub fn all_core_table_names(table_prefix: &str, blog_id: Option<u64>) -> (r: Result<
    Vec<String>,
    DatabaseError,
>)
    ensures
        !valid_table_prefix(table_prefix@) ==> (r matches Err(DatabaseError::InvalidTablePrefix(p))
            && p@ == table_prefix@),
        valid_table_prefix(table_prefix@) && blog_id == Some(0u64) ==> r matches Err(
            DatabaseError::InvalidBlogId(0),
        ),
        valid_table_prefix(table_prefix@) && blog_id != Some(0u64) ==> (r matches Ok(v) && strs(v@)
            == core_table_names(table_prefix@, blog_id)),
{
    validate_table_prefix(table_prefix)?;
    if blog_id == Some(0u64) {
        return Err(DatabaseError::InvalidBlogId(0));
    }
    let tables = core_tables();
    let mut names: Vec<String> = Vec::new();
    let mut k: usize = 0;
    while k < tables.len()
        invariant
            k <= tables@.len(),
            tables@.len() == core_table_list().len(),
            forall|i: int|
                0 <= i < tables@.len() ==> (#[trigger] tables@[i]).logical_name@
                    == core_table_list()[i].0 && tables@[i].scope == core_table_list()[i].1,
            valid_table_prefix(table_prefix@),
            blog_id != Some(0u64),
            strs(names@) == core_table_names(table_prefix@, blog_id).subrange(0, k as int),
        decreases tables@.len() - k,
    {
        let t = tables[k];
        assert(t.logical_name@ == core_table_list()[k as int].0 && t.scope == core_table_list()[k as int].1);
        let n = resolve_table_name(table_prefix, &t, blog_id)?;
        assert(n@ == core_table_names(table_prefix@, blog_id)[k as int]);
        let ghost before = names@;
        let ghost all = core_table_names(table_prefix@, blog_id);
        names.push(n);
        assert(strs(names@) =~= strs(before).push(n@));
        assert(all.subrange(0, k + 1) =~= all.subrange(0, k as int).push(all[k as int]));
        k += 1;
    }
    assert(core_table_names(table_prefix@, blog_id).subrange(0, k as int) =~= core_table_names(
        table_prefix@,
        blog_id,
    ));
    Ok(names)
}


// ------------------------------------------------------------------
// Options
// ------------------------------------------------------------------

#[derive(Debug, Clone)]
pub struct OptionRecord {
    pub name: String,
    pub value: String,
    pub autoload: bool,
}

/// The `wp_options` table: named values, some of them autoloaded.
#[derive(Debug, Clone)]
pub struct OptionStore {
    records: Vec<OptionRecord>,
    alloptions_cache: Option<Vec<(String, String)>>,
}

pub open spec fn names_distinct(recs: Seq<OptionRecord>) -> bool {
    forall|i: int, j: int| 0 <= i < j < recs.len() ==> recs[i].name@ != recs[j].name@
}

/// Name -> (value, autoload) of a list of records.
pub open spec fn records_map(recs: Seq<OptionRecord>) -> Map<Seq<char>, (Seq<char>, bool)>
    decreases recs.len(),
{
    if recs.len() == 0 {
        Map::empty()
    } else {
        records_map(recs.drop_last()).insert(
            recs.last().name@,
            (recs.last().value@, recs.last().autoload),
        )
    }
}

/// (name, value) of the autoloaded records, in order.
pub open spec fn autoload_pairs(recs: Seq<OptionRecord>) -> Seq<(Seq<char>, Seq<char>)>
    decreases recs.len(),
{
    if recs.len() == 0 {
        Seq::empty()
    } else if recs.last().autoload {
        autoload_pairs(recs.drop_last()).push((recs.last().name@, recs.last().value@))
    } else {
        autoload_pairs(recs.drop_last())
    }
}

/// (name, value) of every record, in order.
pub open spec fn all_pairs(recs: Seq<OptionRecord>) -> Seq<(Seq<char>, Seq<char>)> {
    recs.map_values(|r: OptionRecord| (r.name@, r.value@))
}


pub proof fn lemma_records_map_dom(recs: Seq<OptionRecord>, k: Seq<char>)
    ensures
        records_map(recs).dom().contains(k) <==> exists|i: int|
            0 <= i < recs.len() && recs[i].name@ == k,
    decreases recs.len(),
{
    if recs.len() > 0 {
        lemma_records_map_dom(recs.drop_last(), k);
        if records_map(recs).dom().contains(k) && k != recs.last().name@ {
            let i = choose|i: int| 0 <= i < recs.drop_last().len() && recs.drop_last()[i].name@ == k;
            assert(recs[i].name@ == k);
        }
        if exists|i: int| 0 <= i < recs.len() && recs[i].name@ == k {
            let i = choose|i: int| 0 <= i < recs.len() && recs[i].name@ == k;
            if i < recs.len() - 1 {
                assert(recs.drop_last()[i].name@ == k);
            }
        }
    }
}

pub proof fn lemma_records_map_value(recs: Seq<OptionRecord>, i: int)
    requires
        names_distinct(recs),
        0 <= i < recs.len(),
    ensures
        records_map(recs).dom().contains(recs[i].name@),
        records_map(recs)[recs[i].name@] == (recs[i].value@, recs[i].autoload),
    decreases recs.len(),
{
    if i < recs.len() - 1 {
        assert(recs.drop_last()[i] == recs[i]);
        lemma_records_map_value(recs.drop_last(), i);
    }
}

fn copy_record(r: &OptionRecord) -> (c: OptionRecord)
    ensures
        c.name@ == r.name@,
        c.value@ == r.value@,
        c.autoload == r.autoload,
{
    OptionRecord { name: copy_string(&r.name), value: copy_string(&r.value), autoload: r.autoload }
}

fn copy_pairs(v: &Vec<(String, String)>) -> (r: Vec<(String, String)>)
    ensures
        pair_views(r@) == pair_views(v@),
{
    let mut r: Vec<(String, String)> = Vec::new();
    let mut k: usize = 0;
    while k < v.len()
        invariant
            k <= v@.len(),
            pair_views(r@) == pair_views(v@).subrange(0, k as int),
        decreases v@.len() - k,
    {
        let ghost before = r@;
        r.push((copy_string(&v[k].0), copy_string(&v[k].1)));
        assert(pair_views(r@) =~= pair_views(before).push(pair_views(v@)[k as int]));
        assert(pair_views(v@).subrange(0, k + 1) =~= pair_views(v@).subrange(0, k as int).push(
            pair_views(v@)[k as int],
        ));
        k += 1;
    }
    assert(pair_views(v@).subrange(0, k as int) =~= pair_views(v@));
    r
}

/// An autoloaded pair is a record's name and value with autoload set.
proof fn lemma_autoload_pairs_contains(recs: Seq<OptionRecord>, n: Seq<char>, v: Seq<char>)
    ensures
        autoload_pairs(recs).contains((n, v)) <==> exists|i: int|
            0 <= i < recs.len() && #[trigger] recs[i].name@ == n && recs[i].value@ == v
                && recs[i].autoload,
    decreases recs.len(),
{
    if recs.len() > 0 {
        let d = recs.drop_last();
        lemma_autoload_pairs_contains(d, n, v);
        let a = autoload_pairs(d);
        if exists|i: int| 0 <= i < recs.len() && #[trigger] recs[i].name@ == n && recs[i].value@ == v
            && recs[i].autoload {
            let i = choose|i: int| 0 <= i < recs.len() && #[trigger] recs[i].name@ == n && recs[i].value@
                == v && recs[i].autoload;
            if i < recs.len() - 1 {
                assert(d[i] == recs[i]);
                let j = choose|j: int| 0 <= j < a.len() && a[j] == (n, v);
                if recs.last().autoload {
                    assert(autoload_pairs(recs)[j] == (n, v));
                }
            } else {
                assert(autoload_pairs(recs).last() == (n, v));
            }
        }
        if autoload_pairs(recs).contains((n, v)) {
            let j = choose|j: int| 0 <= j < autoload_pairs(recs).len() && autoload_pairs(recs)[j] == (n, v);
            if recs.last().autoload && j == autoload_pairs(recs).len() - 1 {
                assert(recs[recs.len() - 1].name@ == n);
            } else {
                assert(a[j] == (n, v));
                let i = choose|i: int| 0 <= i < d.len() && #[trigger] d[i].name@ == n && d[i].value@ == v
                    && d[i].autoload;
                assert(recs[i] == d[i]);
            }
        }
    }
}

impl OptionStore {
    /// The autoloaded pairs (what `load_alloptions` returns) are exactly the
    /// options in the map whose autoload flag is set, with their values.
    pub proof fn lemma_autoloaded_matches_options(&self)
        requires
            self.wf(),
        ensures
            forall|n: Seq<char>, v: Seq<char>|
                #![trigger self.autoloaded().contains((n, v))]
                self.autoloaded().contains((n, v)) <==> (self@.dom().contains(n) && self@[n] == (
                    v,
                    true,
                )),
    {
        let recs = self.records@;
        assert forall|n: Seq<char>, v: Seq<char>|
            #![trigger self.autoloaded().contains((n, v))]
            self.autoloaded().contains((n, v)) <==> (self@.dom().contains(n) && self@[n] == (v, true)) by {
            lemma_autoload_pairs_contains(recs, n, v);
            lemma_records_map_dom(recs, n);
            if self@.dom().contains(n) {
                let i = choose|i: int| 0 <= i < recs.len() && recs[i].name@ == n;
                lemma_records_map_value(recs, i);
                if self.autoloaded().contains((n, v)) {
                    let j = choose|j: int| 0 <= j < recs.len() && #[trigger] recs[j].name@ == n
                        && recs[j].value@ == v && recs[j].autoload;
                    assert(i == j);
                }
            }
        }
    }

    /// The (name, value) pairs (what `snapshot` returns) are exactly the
    /// options of the map with their values, each name once; the
    /// autoloaded pairs are among them.
    pub proof fn lemma_pairs_match_options(&self)
        requires
            self.wf(),
        ensures
            forall|n: Seq<char>, v: Seq<char>|
                #![trigger self.pairs().contains((n, v))]
                self.pairs().contains((n, v)) <==> (self@.dom().contains(n) && self@[n].0 == v),
            forall|i: int, j: int|
                0 <= i < j < self.pairs().len() ==> (#[trigger] self.pairs()[i]).0
                    != (#[trigger] self.pairs()[j]).0,
            forall|n: Seq<char>, v: Seq<char>|
                #![trigger self.autoloaded().contains((n, v))]
                self.autoloaded().contains((n, v)) ==> self.pairs().contains((n, v)),
    {
        let recs = self.records@;
        self.lemma_autoloaded_matches_options();
        assert forall|n: Seq<char>, v: Seq<char>|
            #![trigger self.pairs().contains((n, v))]
            self.pairs().contains((n, v)) <==> (self@.dom().contains(n) && self@[n].0 == v) by {
            lemma_records_map_dom(recs, n);
            if self.pairs().contains((n, v)) {
                let k = choose|k: int| 0 <= k < self.pairs().len() && self.pairs()[k] == (n, v);
                assert(self.pairs()[k] == (recs[k].name@, recs[k].value@));
                lemma_records_map_value(recs, k);
            }
            if self@.dom().contains(n) && self@[n].0 == v {
                let i = choose|i: int| 0 <= i < recs.len() && recs[i].name@ == n;
                lemma_records_map_value(recs, i);
                assert(self.pairs()[i] == (n, v));
            }
        }
        assert forall|i: int, j: int|
            0 <= i < j < self.pairs().len() implies (#[trigger] self.pairs()[i]).0
                != (#[trigger] self.pairs()[j]).0 by {
            assert(self.pairs()[i].0 == recs[i].name@);
            assert(self.pairs()[j].0 == recs[j].name@);
        }
        assert forall|n: Seq<char>, v: Seq<char>|
            #![trigger self.autoloaded().contains((n, v))]
            self.autoloaded().contains((n, v)) implies self.pairs().contains((n, v)) by {
            assert(self@.dom().contains(n) && self@[n] == (v, true));
            lemma_records_map_dom(recs, n);
            let i = choose|i: int| 0 <= i < recs.len() && recs[i].name@ == n;
            lemma_records_map_value(recs, i);
            assert(self.pairs()[i] == (n, v));
        }
    }
}

/// The autoload flag a write ends with: the one given, else the existing
/// option's, else true.
pub open spec fn resolved_autoload(
    m: Map<Seq<char>, (Seq<char>, bool)>,
    name: Seq<char>,
    autoload: Option<bool>,
) -> bool {
    match autoload {
        Some(a) => a,
        None => if m.dom().contains(name) {
            m[name].1
        } else {
            true
        },
    }
}

/// Whether a write changes the option.
pub open spec fn set_changes(
    m: Map<Seq<char>, (Seq<char>, bool)>,
    name: Seq<char>,
    value: Seq<char>,
    autoload: Option<bool>,
) -> bool {
    !(m.dom().contains(name) && m[name] == (value, resolved_autoload(m, name, autoload)))
}

/// A read after a write gives the value written and leaves the other
/// options as they were; writing the same again changes nothing and is
/// reported as such; after a delete the option is gone.
pub proof fn lemma_option_read_after_write(
    m: Map<Seq<char>, (Seq<char>, bool)>,
    name: Seq<char>,
    value: Seq<char>,
    autoload: Option<bool>,
    other: Seq<char>,
)
    ensures
        ({
            let m2 = m.insert(name, (value, resolved_autoload(m, name, autoload)));
            &&& m2.dom().contains(name) && m2[name].0 == value
            &&& !set_changes(m2, name, value, autoload)
            &&& m2.insert(name, (value, resolved_autoload(m2, name, autoload))) == m2
            &&& other != name ==> (m2.dom().contains(other) == m.dom().contains(other) && (
            m.dom().contains(other) ==> m2[other] == m[other]))
        }),
        !m.remove(name).dom().contains(name),
{
    let m2 = m.insert(name, (value, resolved_autoload(m, name, autoload)));
    assert(m2.insert(name, (value, resolved_autoload(m2, name, autoload))) =~= m2);
}

impl View for OptionStore {
    type V = Map<Seq<char>, (Seq<char>, bool)>;

    closed spec fn view(&self) -> Map<Seq<char>, (Seq<char>, bool)> {
        records_map(self.records@)
    }
}

impl OptionStore {
    /// Names are distinct and a memoized `alloptions` snapshot, if any,
    /// is that of the current records.
    pub closed spec fn wf(&self) -> bool {
        &&& names_distinct(self.records@)
        &&& (self.alloptions_cache matches Some(c) ==> pair_views(c@) == autoload_pairs(
            self.records@,
        ))
    }

    /// The autoloaded (name, value) pairs, in insertion order.
    pub closed spec fn autoloaded(&self) -> Seq<(Seq<char>, Seq<char>)> {
        autoload_pairs(self.records@)
    }

    /// Every (name, value) pair, in insertion order.
    pub closed spec fn pairs(&self) -> Seq<(Seq<char>, Seq<char>)> {
        all_pairs(self.records@)
    }

    pub fn new() -> (r: Self)
        ensures
            r.wf(),
            r@ == Map::<Seq<char>, (Seq<char>, bool)>::empty(),
    {
        OptionStore { records: Vec::new(), alloptions_cache: None }
    }

    fn index_of(&self, name: &[char]) -> (r: Option<usize>)
        requires
            self.wf(),
        ensures
            match r {
                Some(i) => i < self.records@.len() && self.records@[i as int].name@ == name@,
                None => forall|j: int|
                    0 <= j < self.records@.len() ==> self.records@[j].name@ != name@,
            },
            r is Some <==> self@.dom().contains(name@),
    {
        proof {
            lemma_records_map_dom(self.records@, name@);
        }
        let mut k: usize = 0;
        while k < self.records.len()
            invariant
                k <= self.records@.len(),
                forall|j: int| 0 <= j < k ==> self.records@[j].name@ != name@,
            decreases self.records@.len() - k,
        {
            let n = chars_of(self.records[k].name.as_str());
            if chars_eq(&n, name) {
                assert(self.records@[k as int].name@ == name@);
                proof {
                    lemma_records_map_dom(self.records@, name@);
                }
                return Some(k);
            }
            k += 1;
        }
        None
    }

    /// Adds an option only when no option of that name exists.
    pub fn add_option(&mut self, name: &str, value: &str, autoload: bool) -> (r: bool)
        requires
            old(self).wf(),
        ensures
            final(self).wf(),
            r == !old(self)@.dom().contains(name@),
            r ==> final(self)@ == old(self)@.insert(name@, (value@, autoload)),
            !r ==> final(self)@ == old(self)@,
    {
        let n = chars_of(name);
        if self.index_of(&n).is_some() {
            return false;
        }
        let ghost old_recs = self.records@;
        self.records.push(
            OptionRecord { name: string_of(&n), value: string_of(&chars_of(value)), autoload },
        );
        self.alloptions_cache = None;
        assert(self.records@.drop_last() =~= old_recs);
        true
    }

    /// Writes an option. An unspecified autoload keeps the existing flag
    /// (true for a new option). Returns false when nothing changes.
    pub fn set_option(&mut self, name: &str, value: &str, autoload: Option<bool>) -> (r: bool)
        requires
            old(self).wf(),
        ensures
            final(self).wf(),
            final(self)@ == old(self)@.insert(
                name@,
                (value@, resolved_autoload(old(self)@, name@, autoload)),
            ),
            r == set_changes(old(self)@, name@, value@, autoload),
    {
        let n = chars_of(name);
        let v = chars_of(value);
        let idx = self.index_of(&n);
        match idx {
            Some(i) => {
                proof {
                    lemma_records_map_value(self.records@, i as int);
                }
                let resolved = match autoload {
                    Some(a) => a,
                    None => self.records[i].autoload,
                };
                let current = chars_of(self.records[i].value.as_str());
                if chars_eq(&current, &v) && self.records[i].autoload == resolved {
                    assert(old(self)@.insert(name@, (value@, resolved)) =~= old(self)@);
                    return false;
                }
                let ghost old_recs = self.records@;
                let rec = OptionRecord { name: string_of(&n), value: string_of(&v), autoload: resolved };
                self.records.set(i, rec);
                self.alloptions_cache = None;
                proof {
                    let new_recs = self.records@;
                    assert(names_distinct(new_recs)) by {
                        assert forall|a: int, b: int| 0 <= a < b < new_recs.len() implies new_recs[a].name@
                            != new_recs[b].name@ by {
                            assert(old_recs[a].name@ != old_recs[b].name@);
                        }
                    }
                    assert forall|k: Seq<char>| self@.dom().contains(k) <==> old(self)@.insert(
                        name@,
                        (value@, resolved),
                    ).dom().contains(k) by {
                        lemma_records_map_dom(new_recs, k);
                        lemma_records_map_dom(old_recs, k);
                        if exists|j: int| 0 <= j < old_recs.len() && old_recs[j].name@ == k {
                            let j = choose|j: int| 0 <= j < old_recs.len() && old_recs[j].name@ == k;
                            assert(new_recs[j].name@ == k);
                        }
                        if exists|j: int| 0 <= j < new_recs.len() && new_recs[j].name@ == k {
                            let j = choose|j: int| 0 <= j < new_recs.len() && new_recs[j].name@ == k;
                            assert(old_recs[j].name@ == k);
                        }
                    }
                    assert forall|k: Seq<char>| self@.dom().contains(k) implies self@[k] == old(
                        self,
                    )@.insert(name@, (value@, resolved))[k] by {
                        lemma_records_map_dom(new_recs, k);
                        let j = choose|j: int| 0 <= j < new_recs.len() && new_recs[j].name@ == k;
                        lemma_records_map_value(new_recs, j);
                        if j != i {
                            lemma_records_map_value(old_recs, j);
                        }
                    }
                    assert(self@ =~= old(self)@.insert(name@, (value@, resolved)));
                }
                true
            },
            None => {
                let resolved = match autoload {
                    Some(a) => a,
                    None => true,
                };
                let ghost old_recs = self.records@;
                self.records.push(
                    OptionRecord { name: string_of(&n), value: string_of(&v), autoload: resolved },
                );
                self.alloptions_cache = None;
                assert(self.records@.drop_last() =~= old_recs);
                true
            },
        }
    }

    pub fn get_option(&self, name: &str) -> (r: Option<String>)
        requires
            self.wf(),
        ensures
            match r {
                Some(v) => self@.dom().contains(name@) && v@ == self@[name@].0,
                None => !self@.dom().contains(name@),
            },
    {
        let n = chars_of(name);
        match self.index_of(&n) {
            Some(i) => {
                proof {
                    lemma_records_map_value(self.records@, i as int);
                }
                Some(copy_string(&self.records[i].value))
            },
            None => None,
        }
    }

    pub fn get_option_with_default(&self, name: &str, default: Option<&str>) -> (r: Option<String>)
        requires
            self.wf(),
        ensures
            match r {
                Some(v) => if self@.dom().contains(name@) {
                    v@ == self@[name@].0
                } else {
                    default matches Some(d) && v@ == d@
                },
                None => !self@.dom().contains(name@) && default is None,
            },
    {
        match self.get_option(name) {
            Some(v) => Some(v),
            None => match default {
                Some(d) => Some(string_of(&chars_of(d))),
                None => None,
            },
        }
    }

    /// Each requested name with its value (`None` when missing), in order.
    pub fn get_multiple(&self, names: &[String]) -> (r: KeyedList<Option<String>>)
        requires
            self.wf(),
        ensures
            r.entries@.len() == names@.len(),
            forall|i: int|
                0 <= i < names@.len() ==> (#[trigger] r.entries@[i]).0@ == names@[i]@ && match r.entries@[i].1 {
                    Some(v) => self@.dom().contains(names@[i]@) && v@ == self@[names@[i]@].0,
                    None => !self@.dom().contains(names@[i]@),
                },
    {
        let mut entries: Vec<(String, Option<String>)> = Vec::new();
        let mut k: usize = 0;
        while k < names.len()
            invariant
                self.wf(),
                k <= names@.len(),
                entries@.len() == k,
                forall|i: int|
                    0 <= i < k ==> (#[trigger] entries@[i]).0@ == names@[i]@ && match entries@[i].1 {
                        Some(v) => self@.dom().contains(names@[i]@) && v@ == self@[names@[i]@].0,
                        None => !self@.dom().contains(names@[i]@),
                    },
            decreases names@.len() - k,
        {
            let value = self.get_option(names[k].as_str());
            entries.push((copy_string(&names[k]), value));
            k += 1;
        }
        KeyedList { entries }
    }

    pub fn get_option_record(&self, name: &str) -> (r: Option<OptionRecord>)
        requires
            self.wf(),
        ensures
            match r {
                Some(rec) => self@.dom().contains(name@) && rec.name@ == name@ && (rec.value@, rec.autoload)
                    == self@[name@],
                None => !self@.dom().contains(name@),
            },
    {
        let n = chars_of(name);
        match self.index_of(&n) {
            Some(i) => {
                proof {
                    lemma_records_map_value(self.records@, i as int);
                }
                Some(copy_record(&self.records[i]))
            },
            None => None,
        }
    }

    pub fn delete_option(&mut self, name: &str) -> (r: bool)
        requires
            old(self).wf(),
        ensures
            final(self).wf(),
            r == old(self)@.dom().contains(name@),
            final(self)@ == old(self)@.remove(name@),
    {
        let n = chars_of(name);
        match self.index_of(&n) {
            Some(i) => {
                let ghost old_recs = self.records@;
                let _removed = self.records.remove(i);
                self.alloptions_cache = None;
                proof {
                    let new_recs = self.records@;
                    assert(new_recs =~= old_recs.remove(i as int));
                    assert forall|a: int, b: int| 0 <= a < b < new_recs.len() implies new_recs[a].name@
                        != new_recs[b].name@ by {
                        let oa = if a < i { a } else { a + 1 };
                        let ob = if b < i { b } else { b + 1 };
                        assert(new_recs[a] == old_recs[oa] && new_recs[b] == old_recs[ob]);
                    }
                    assert forall|k: Seq<char>| self@.dom().contains(k) <==> old(self)@.remove(
                        name@,
                    ).dom().contains(k) by {
                        lemma_records_map_dom(new_recs, k);
                        lemma_records_map_dom(old_recs, k);
                        if exists|j: int| 0 <= j < old_recs.len() && old_recs[j].name@ == k && k != name@ {
                            let j = choose|j: int| 0 <= j < old_recs.len() && old_recs[j].name@ == k && k != name@;
                            let nj = if j < i { j } else { j - 1 };
                            assert(new_recs[nj].name@ == k);
                        }
                        if exists|j: int| 0 <= j < new_recs.len() && new_recs[j].name@ == k {
                            let j = choose|j: int| 0 <= j < new_recs.len() && new_recs[j].name@ == k;
                            let oj = if j < i { j } else { j + 1 };
                            assert(old_recs[oj].name@ == k);
                            assert(oj != i);
                        }
                    }
                    assert forall|k: Seq<char>| self@.dom().contains(k) implies self@[k] == old(
                        self,
                    )@.remove(name@)[k] by {
                        lemma_records_map_dom(new_recs, k);
                        let j = choose|j: int| 0 <= j < new_recs.len() && new_recs[j].name@ == k;
                        let oj = if j < i { j } else { j + 1 };
                        lemma_records_map_value(new_recs, j);
                        lemma_records_map_value(old_recs, oj);
                    }
                    assert(self@ =~= old(self)@.remove(name@));
                }
                true
            },
            None => {
                assert(old(self)@.remove(name@) =~= old(self)@);
                false
            },
        }
    }

    fn compute_autoloaded(&self) -> (r: Vec<(String, String)>)
        ensures
            pair_views(r@) == autoload_pairs(self.records@),
    {
        let mut r: Vec<(String, String)> = Vec::new();
        let mut k: usize = 0;
        while k < self.records.len()
            invariant
                k <= self.records@.len(),
                pair_views(r@) == autoload_pairs(self.records@.subrange(0, k as int)),
            decreases self.records@.len() - k,
        {
            assert(self.records@.subrange(0, k + 1).drop_last() =~= self.records@.subrange(0, k as int));
            if self.records[k].autoload {
                let ghost before = r@;
                r.push((copy_string(&self.records[k].name), copy_string(&self.records[k].value)));
                assert(pair_views(r@) =~= pair_views(before).push(
                    (self.records@[k as int].name@, self.records@[k as int].value@),
                ));
            }
            k += 1;
        }
        assert(self.records@.subrange(0, k as int) =~= self.records@);
        r
    }

    /// WordPress `alloptions`: the autoloaded options, memoized until the
    /// next change.
    pub fn load_alloptions(&mut self) -> (r: KeyedList<String>)
        requires
            old(self).wf(),
        ensures
            final(self).wf(),
            final(self)@ == old(self)@,
            final(self).autoloaded() == old(self).autoloaded(),
            final(self).pairs() == old(self).pairs(),
            pair_views(r.entries@) == old(self).autoloaded(),
    {
        match &self.alloptions_cache {
            Some(cache) => {
                let c = copy_pairs(cache);
                return KeyedList { entries: c };
            },
            None => {},
        }
        let computed = self.compute_autoloaded();
        let kept = copy_pairs(&computed);
        self.alloptions_cache = Some(kept);
        KeyedList { entries: computed }
    }

    /// Every option's name and value.
    pub fn snapshot(&self) -> (r: KeyedList<String>)
        ensures
            pair_views(r.entries@) == self.pairs(),
    {
        let mut r: Vec<(String, String)> = Vec::new();
        let mut k: usize = 0;
        while k < self.records.len()
            invariant
                k <= self.records@.len(),
                pair_views(r@) == all_pairs(self.records@).subrange(0, k as int),
            decreases self.records@.len() - k,
        {
            let ghost before = r@;
            r.push((copy_string(&self.records[k].name), copy_string(&self.records[k].value)));
            assert(pair_views(r@) =~= pair_views(before).push(all_pairs(self.records@)[k as int]));
            assert(all_pairs(self.records@).subrange(0, k + 1) =~= all_pairs(self.records@).subrange(
                0,
                k as int,
            ).push(all_pairs(self.records@)[k as int]));
            k += 1;
        }
        assert(all_pairs(self.records@).subrange(0, k as int) =~= all_pairs(self.records@));
        KeyedList { entries: r }
    }
}

impl Default for OptionStore {
    fn default() -> (r: Self)
        ensures
            r.wf(),
            r@ == Map::<Seq<char>, (Seq<char>, bool)>::empty(),
    {
        OptionStore::new()
    }
}


// ------------------------------------------------------------------
// Multisite
// ------------------------------------------------------------------

#[derive(Debug, Clone)]
pub struct NetworkSite {
    pub blog_id: u64,
    pub domain: String,
    pub path: String,
    pub is_public: bool,
}

/// Byte length of a string's UTF-8 encoding (what `str::len` returns).
pub open spec fn byte_len(s: Seq<char>) -> usize {
    vstd::utf8::encode_utf8(s).len() as usize
}

pub open spec fn paths_longest_first(sites: Seq<NetworkSite>) -> bool {
    forall|i: int, j: int|
        0 <= i < j < sites.len() ==> byte_len(sites[i].path@) >= byte_len(sites[j].path@)
}

/// The site serving `path` on `domain`: the first (longest path) whose
/// domain matches ignoring ASCII case and whose path prefixes the request.
pub open spec fn site_matches(site: NetworkSite, domain: Seq<char>, path: Seq<char>) -> bool {
    eq_ignore_case(site.domain@, domain) && starts_with(path, site.path@)
}

/// The request path with a leading `/`.
pub open spec fn rooted(path: Seq<char>) -> Seq<char> {
    if path.len() > 0 && path[0] == '/' {
        path
    } else {
        seq!['/'] + path
    }
}

#[derive(Debug, Clone)]
pub struct MultisiteResolver {
    sites: Vec<NetworkSite>,
}

fn copy_site(s: &NetworkSite) -> (r: NetworkSite)
    ensures
        r.blog_id == s.blog_id,
        r.domain@ == s.domain@,
        r.path@ == s.path@,
        r.is_public == s.is_public,
{
    NetworkSite {
        blog_id: s.blog_id,
        domain: copy_string(&s.domain),
        path: copy_string(&s.path),
        is_public: s.is_public,
    }
}

impl MultisiteResolver {
    /// The registered sites, longest path first (ties in registration order).
    pub closed spec fn sites(&self) -> Seq<NetworkSite> {
        self.sites@
    }

    pub closed spec fn wf(&self) -> bool {
        paths_longest_first(self.sites@)
    }

    pub fn new() -> (r: Self)
        ensures
            r.wf(),
            r.sites() == Seq::<NetworkSite>::empty(),
    {
        MultisiteResolver { sites: Vec::new() }
    }

    /// Adds a site after every site whose path is at least as long.
    pub fn register_site(&mut self, site: NetworkSite)
        requires
            old(self).wf(),
        ensures
            final(self).wf(),
            exists|p: int|
                0 <= p <= old(self).sites().len() && final(self).sites() == old(self).sites().insert(
                    p,
                    site,
                ) && (forall|j: int|
                    0 <= j < p ==> byte_len(#[trigger] old(self).sites()[j].path@) >= byte_len(
                        site.path@,
                    )) && (forall|j: int|
                    p <= j < old(self).sites().len() ==> byte_len(
                        #[trigger] old(self).sites()[j].path@,
                    ) < byte_len(site.path@)),
    {
        let n = site.path.as_str().len();
        let mut p: usize = 0;
        while p < self.sites.len() && self.sites[p].path.as_str().len() >= n
            invariant
                p <= self.sites@.len(),
                n == byte_len(site.path@),
                forall|j: int| 0 <= j < p ==> byte_len(#[trigger] self.sites@[j].path@) >= n,
            decreases self.sites@.len() - p,
        {
            p += 1;
        }
        let ghost old_sites = self.sites@;
        proof {
            assert forall|j: int| p <= j < old_sites.len() implies byte_len(
                #[trigger] old_sites[j].path@,
            ) < n by {
                assert(byte_len(old_sites[p as int].path@) < n);
                if j > p {
                    assert(byte_len(old_sites[p as int].path@) >= byte_len(old_sites[j].path@));
                }
            }
        }
        self.sites.insert(p, site);
        proof {
            let s2 = self.sites@;
            assert(s2 =~= old_sites.insert(p as int, site));
            assert forall|i: int, j: int| 0 <= i < j < s2.len() implies byte_len(s2[i].path@)
                >= byte_len(s2[j].path@) by {
                let oi = if i < p { i } else { i - 1 };
                let oj = if j < p { j } else { j - 1 };
                if i < p && j < p {
                    assert(s2[i] == old_sites[i] && s2[j] == old_sites[j]);
                } else if i > p && j > p {
                    assert(s2[i] == old_sites[oi] && s2[j] == old_sites[oj]);
                } else if i == p {
                    assert(s2[j] == old_sites[oj]);
                } else if j == p {
                    assert(s2[i] == old_sites[i]);
                } else {
                    assert(s2[i] == old_sites[i]);
                    assert(s2[j] == old_sites[oj]);
                }
            }
            assert(old(self).sites() == old_sites);
            assert(self.sites() == old(self).sites().insert(p as int, site));
            assert(forall|j: int|
                0 <= j < p ==> byte_len(#[trigger] old(self).sites()[j].path@) >= byte_len(site.path@));
            assert(forall|j: int|
                p <= j < old(self).sites().len() ==> byte_len(#[trigger] old(self).sites()[j].path@)
                    < byte_len(site.path@));
        }
    }

    /// The first registered site that serves `request_path` on `domain`.
    pub fn resolve(&self, domain: &str, request_path: &str) -> (r: Option<NetworkSite>)
        ensures
            match r {
                Some(site) => exists|i: int|
                    0 <= i < self.sites().len() && site_matches(
                        self.sites()[i],
                        domain@,
                        rooted(request_path@),
                    ) && (forall|j: int|
                        0 <= j < i ==> !site_matches(
                            #[trigger] self.sites()[j],
                            domain@,
                            rooted(request_path@),
                        )) && site.blog_id == self.sites()[i].blog_id && site.domain@
                        == self.sites()[i].domain@ && site.path@ == self.sites()[i].path@
                        && site.is_public == self.sites()[i].is_public,
                None => forall|j: int|
                    0 <= j < self.sites().len() ==> !site_matches(
                        #[trigger] self.sites()[j],
                        domain@,
                        rooted(request_path@),
                    ),
            },
    {
        let raw = chars_of(request_path);
        let path = if raw.len() > 0 && raw[0] == '/' {
            raw
        } else {
            let mut v: Vec<char> = Vec::new();
            v.push('/');
            append_chars(&mut v, &raw);
            assert(v@ =~= seq!['/'] + request_path@);
            v
        };
        let d = chars_of(domain);
        let mut k: usize = 0;
        while k < self.sites.len()
            invariant
                k <= self.sites@.len(),
                path@ == rooted(request_path@),
                d@ == domain@,
                forall|j: int|
                    0 <= j < k ==> !site_matches(
                        #[trigger] self.sites@[j],
                        domain@,
                        rooted(request_path@),
                    ),
            decreases self.sites@.len() - k,
        {
            let sd = chars_of(self.sites[k].domain.as_str());
            let sp = chars_of(self.sites[k].path.as_str());
            if eq_ignore_case_exec(&sd, &d) && starts_with_exec(&path, &sp) {
                assert(site_matches(self.sites@[k as int], domain@, rooted(request_path@)));
                let res = copy_site(&self.sites[k]);
                assert(self.sites()[k as int] == self.sites@[k as int]);
                return Some(res);
            }
            k += 1;
        }
        None
    }
}

impl Default for MultisiteResolver {
    fn default() -> (r: Self)
        ensures
            r.wf(),
            r.sites() == Seq::<NetworkSite>::empty(),
    {
        MultisiteResolver::new()
    }
}

} // verus!
