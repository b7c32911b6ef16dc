//! The request list: which catalog pages are asked for, which packages a
//! manifest depends on, and how the requests are put together.

use crate::exclusion::texts;
use crate::text::{decimal, push_decimal};
use vstd::prelude::*;

verus! {

/// One query to the catalog of packages: how many pages are asked for, how
/// many packages a page holds, and the category asked for (empty for none).
#[derive(Debug)]
pub struct CatalogQuery {
    pub pages: u32,
    pub per_page: u32,
    pub category: String,
}

/// The address of one page of the catalog, most downloaded packages first,
/// within a category where one is given.
pub open spec fn page_address(page: nat, per_page: nat, category: Seq<char>) -> Seq<char> {
    "https://crates.io/api/v1/crates?page="@ + decimal(page) + "&per_page="@ + decimal(per_page)
        + "&sort=downloads"@ + if category.len() > 0 {
        "&category="@ + category
    } else {
        Seq::<char>::empty()
    }
}

/// Writes the address of one page of the catalog.
pub fn catalog_url(page: u32, per_page: u32, category: &str) -> (url: String)
    ensures
        url@ == page_address(page as nat, per_page as nat, category@),
{
    let mut url = String::from_str("https://crates.io/api/v1/crates?page=");
    push_decimal(&mut url, page as u64);
    url.append("&per_page=");
    push_decimal(&mut url, per_page as u64);
    url.append("&sort=downloads");
    if !category.is_empty() {
        url.append("&category=");
        url.append(category);
    }
    url
}

/// Writes the addresses of the pages of a query, from page one on.
pub fn catalog_urls(query: &CatalogQuery) -> (urls: Vec<String>)
    ensures
        urls@.len() == query.pages,
        forall|i: int|
            0 <= i < urls@.len() ==> (#[trigger] urls@[i])@ == page_address(
                (i + 1) as nat,
                query.per_page as nat,
                query.category@,
            ),
{
    let mut urls: Vec<String> = Vec::new();
    let mut page: u32 = 0;
    while page < query.pages
        invariant
            page <= query.pages,
            urls@.len() == page,
            forall|i: int|
                0 <= i < urls@.len() ==> (#[trigger] urls@[i])@ == page_address(
                    (i + 1) as nat,
                    query.per_page as nat,
                    query.category@,
                ),
        decreases query.pages - page,
    {
        page = page + 1;
        urls.push(catalog_url(page, query.per_page, query.category.as_str()));
    }
    urls
}

/// The queries that make up the ranking: five pages of a hundred of all
/// packages, then one page each of three categories.
pub fn catalog_queries() -> (queries: Vec<CatalogQuery>)
    ensures
        queries@.len() == 4,
        queries@[0].pages == 5 && queries@[0].per_page == 100 && queries@[0].category@.len() == 0,
        queries@[1].pages == 1 && queries@[1].per_page == 100 && queries@[1].category@
            == "network-programming"@,
        queries@[2].pages == 1 && queries@[2].per_page == 10 && queries@[2].category@
            == "filesystem"@,
        queries@[3].pages == 1 && queries@[3].per_page == 10 && queries@[3].category@
            == "web-programming"@,
{
    let mut queries: Vec<CatalogQuery> = Vec::new();
    queries.push(CatalogQuery { pages: 5, per_page: 100, category: String::new() });
    queries.push(
        CatalogQuery {
            pages: 1,
            per_page: 100,
            category: String::from_str("network-programming"),
        },
    );
    queries.push(
        CatalogQuery { pages: 1, per_page: 10, category: String::from_str("filesystem") },
    );
    queries.push(
        CatalogQuery { pages: 1, per_page: 10, category: String::from_str("web-programming") },
    );
    queries
}

/// The keys of the table `table` of a TOML document, in the order in which
/// the parsed document holds them: `None` where the text is no TOML document
/// or holds no table under that name.
pub uninterp spec fn table_keys(document: Seq<char>, table: Seq<char>) -> Option<Seq<Seq<char>>>;

/// The texts of a list of strings that may be there.
pub open spec fn texts_of(list: Option<Vec<String>>) -> Option<Seq<Seq<char>>> {
    match list {
        Some(strings) => Some(texts(strings@)),
        None => None,
    }
}

/// Parses `document` as a `toml::Value`, looks `table` up with `Value::get`,
/// reads it with `Value::as_table` and lists the keys of that table. Nothing
/// is proved of the result: it is what those functions give, under the name
/// [`table_keys`], and `None` where one of them gives nothing.
#[verifier::external_body]
fn read_table_keys(document: &str, table: &str) -> (keys: Option<Vec<String>>)
    ensures
        texts_of(keys) == table_keys(document@, table@),
{
    let value = match document.parse::<toml::Value>() {
        Ok(value) => value,
        Err(_) => {
            return None;
        },
    };
    match value.get(table) {
        Some(inner) => match inner.as_table() {
            Some(entries) => Some(entries.keys().cloned().collect()),
            None => None,
        },
        None => None,
    }
}

/// The packages that a manifest depends on: the keys of its table
/// `dependencies`.
pub fn manifest_dependencies(manifest: &str) -> (names: Option<Vec<String>>)
    ensures
        texts_of(names) == table_keys(manifest@, "dependencies"@),
{
    read_table_keys(manifest, "dependencies")
}

fn append_names(out: &mut Vec<String>, names: &Vec<String>)
    ensures
        texts(final(out)@) == texts(old(out)@) + texts(names@),
{
    let mut i: usize = 0;
    while i < names.len()
        invariant
            i <= names@.len(),
            texts(out@) == texts(old(out)@) + texts(names@).subrange(0, i as int),
        decreases names@.len() - i,
    {
        let ghost before = texts(out@);
        out.push(names[i].clone());
        assert(texts(out@) =~= before.push(names@[i as int]@));
        i = i + 1;
    }
}

/// Puts the request list together: the ranked packages, then those of the
/// manifest, then the hand-picked additions, nothing left out and nothing
/// moved.
pub fn request_list(ranked: &Vec<String>, manifest: &Vec<String>, additions: &Vec<String>) -> (all:
    Vec<String>)
    ensures
        texts(all@) == texts(ranked@) + texts(manifest@) + texts(additions@),
{
    let mut all: Vec<String> = Vec::new();
    append_names(&mut all, ranked);
    append_names(&mut all, manifest);
    append_names(&mut all, additions);
    all
}

} // verus!
