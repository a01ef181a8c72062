use vstd::prelude::*;
use vstd::string::StringExecFns;

verus! {

/// A network as it is stored in the `NeatNetworks` class.
#[derive(Clone, Debug, Default)]
pub struct NeatNetworks {
    pub object_id: String,
    pub network: String,
    pub inputs: usize,
    pub outputs: usize,
}

/// The answer of the server to the creation of an object.
#[derive(Clone, Debug, Default)]
pub struct ParseResult {
    object_id: Option<String>,
}

impl ParseResult {
    /// An answer that carries the given object id.
    pub fn new(object_id: Option<String>) -> (r: Self)
        ensures
            r.spec_object_id() == object_id,
    {
        ParseResult { object_id }
    }

    /// The object id the answer carries.
    pub closed spec fn spec_object_id(&self) -> Option<String> {
        self.object_id
    }

    /// The object id the answer carries.
    pub fn object_id(&self) -> (r: Option<String>)
        ensures
            r == self.spec_object_id(),
    {
        match &self.object_id {
            Some(id) => Some(id.clone()),
            None => None,
        }
    }
}

/// One page of a query: the objects found, their total count where the
/// server gave it, and its error where it gave one.
#[derive(Debug)]
pub struct Results<T> {
    pub count: Option<u64>,
    pub results: Vec<T>,
    pub error: Option<String>,
}

impl<T> Results<T> {
    /// A page with the given objects and error, and no count.
    pub fn new(results: Vec<T>, error: Option<String>) -> (r: Results<T>)
        ensures
            r.count.is_none(),
            r.results@ == results@,
            r.error == error,
    {
        Results { count: None, results, error }
    }
}

impl<T: Clone> Results<T> {
    /// A copy of the first object of the page, `None` on an empty page.
    pub fn get_first(&self) -> (r: Option<T>)
        ensures
            self.results@.len() == 0 ==> r.is_none(),
            self.results@.len() > 0 ==> r.is_some() && cloned::<T>(self.results@[0], r.unwrap()),
    {
        if self.results.len() == 0 {
            None
        } else {
            Some(self.results[0].clone())
        }
    }

    /// A copy of the objects of the page.
    pub fn get_results(&self) -> (r: Vec<T>)
        ensures
            r@.len() == self.results@.len(),
            forall|i: int|
                0 <= i < r@.len() ==> #[trigger] cloned::<T>(self.results@[i], r@[i]),
    {
        self.results.clone()
    }

    /// The error of the page, if any.
    pub fn get_errors(&self) -> (r: Option<String>)
        ensures
            r == self.error,
    {
        match &self.error {
            Some(e) => Some(e.clone()),
            None => None,
        }
    }

    /// The total count of the query, if the server gave it.
    pub fn get_count(&self) -> (r: Option<u64>)
        ensures
            r == self.count,
    {
        self.count
    }
}

/// How a query is paged and ordered once its defaults are filled in.
pub struct QueryOptions {
    pub limit: usize,
    pub skip: usize,
    pub order: String,
}

/// The order a query asks for when none is given.
pub open spec fn default_order() -> Seq<char> {
    seq!['c', 'r', 'e', 'a', 't', 'e', 'd', 'A', 't']
}

/// The number of objects a query asks for when no limit is given.
pub const DEFAULT_QUERY_LIMIT: usize = 1000;

impl QueryOptions {
    /// Fills in the defaults of a query: at most 1000 objects, none
    /// skipped, ordered by `createdAt`.
    pub fn resolve(limit: Option<usize>, skip: Option<usize>, order: Option<String>) -> (r: Self)
        ensures
            r.limit == (match limit {
                Some(l) => l,
                None => DEFAULT_QUERY_LIMIT,
            }),
            r.skip == (match skip {
                Some(s) => s,
                None => 0,
            }),
            r.order@ == (match order {
                Some(o) => o@,
                None => default_order(),
            }),
    {
        proof {
            reveal_strlit("createdAt");
            assert("createdAt"@ =~= default_order());
        }
        let limit = match limit {
            Some(l) => l,
            None => DEFAULT_QUERY_LIMIT,
        };
        let skip = match skip {
            Some(s) => s,
            None => 0,
        };
        let order = match order {
            Some(o) => o,
            None => String::from_str("createdAt"),
        };
        QueryOptions { limit, skip, order }
    }
}

/// The connection settings of a Parse server: its address and the two keys
/// that every request carries.
pub struct Parse {
    remote_url: String,
    app_id: String,
    rest_key: String,
}

/// The settings of a Parse server, as texts.
pub struct ParseView {
    pub remote_url: Seq<char>,
    pub app_id: Seq<char>,
    pub rest_key: Seq<char>,
}

impl View for Parse {
    type V = ParseView;

    closed spec fn view(&self) -> ParseView {
        ParseView {
            remote_url: self.remote_url@,
            app_id: self.app_id@,
            rest_key: self.rest_key@,
        }
    }
}

/// The address of a class: `remote_url/classes/class_name`.
pub open spec fn class_url_text(remote_url: Seq<char>, class_name: Seq<char>) -> Seq<char> {
    remote_url + seq!['/', 'c', 'l', 'a', 's', 's', 'e', 's', '/'] + class_name
}

/// The address of one object of a class: `remote_url/classes/class_name/id`.
pub open spec fn object_url_text(remote_url: Seq<char>, class_name: Seq<char>, id: Seq<char>) -> Seq<
    char,
> {
    class_url_text(remote_url, class_name) + seq!['/'] + id
}

impl Parse {
    /// Settings for the server at `remote_url` with the given keys.
    pub fn new(remote_url: String, app_id: String, rest_key: String) -> (p: Self)
        ensures
            p@.remote_url == remote_url@,
            p@.app_id == app_id@,
            p@.rest_key == rest_key@,
    {
        Parse { remote_url, app_id, rest_key }
    }

    /// The address of the server.
    pub fn remote_url(&self) -> (r: &str)
        ensures
            r@ == self@.remote_url,
    {
        self.remote_url.as_str()
    }

    /// The application id, sent as `X-Parse-Application-Id`.
    pub fn app_id(&self) -> (r: &str)
        ensures
            r@ == self@.app_id,
    {
        self.app_id.as_str()
    }

    /// The REST key, sent as `X-Parse-REST-API-Key`.
    pub fn rest_key(&self) -> (r: &str)
        ensures
            r@ == self@.rest_key,
    {
        self.rest_key.as_str()
    }

    /// The address that creates and queries objects of a class.
    pub fn class_url(&self, class_name: &str) -> (r: String)
        ensures
            r@ == class_url_text(self@.remote_url, class_name@),
    {
        proof {
            reveal_strlit("/classes/");
        }
        let mut url = String::from_str(self.remote_url.as_str());
        url.append("/classes/");
        url.append(class_name);
        assert(url@ =~= class_url_text(self@.remote_url, class_name@));
        url
    }

    /// The address that reads, updates and deletes one object of a class.
    pub fn object_url(&self, class_name: &str, id: &str) -> (r: String)
        ensures
            r@ == object_url_text(self@.remote_url, class_name@, id@),
    {
        proof {
            reveal_strlit("/");
        }
        let mut url = self.class_url(class_name);
        url.append("/");
        url.append(id);
        assert(url@ =~= object_url_text(self@.remote_url, class_name@, id@));
        url
    }
}

/// The address of a class is the server's address, then `/classes/`, then
/// the whole class name.
pub proof fn lemma_class_url_parts(remote_url: Seq<char>, class_name: Seq<char>)
    ensures
        class_url_text(remote_url, class_name).len() == remote_url.len() + 9 + class_name.len(),
        class_url_text(remote_url, class_name).take(remote_url.len() as int) == remote_url,
        class_url_text(remote_url, class_name).subrange(
            remote_url.len() as int,
            remote_url.len() as int + 9,
        ) == "/classes/"@,
        class_url_text(remote_url, class_name).skip(remote_url.len() as int + 9) == class_name,
{
    reveal_strlit("/classes/");
    let k = class_url_text(remote_url, class_name);
    assert(k.take(remote_url.len() as int) =~= remote_url);
    assert(k.subrange(remote_url.len() as int, remote_url.len() as int + 9) =~= "/classes/"@);
    assert(k.skip(remote_url.len() as int + 9) =~= class_name);
}

/// The address of an object is the address of its class, a slash, and the
/// whole id.
pub proof fn lemma_object_url_parts(remote_url: Seq<char>, class_name: Seq<char>, id: Seq<char>)
    ensures
        object_url_text(remote_url, class_name, id).len() == class_url_text(
            remote_url,
            class_name,
        ).len() + 1 + id.len(),
        object_url_text(remote_url, class_name, id).take(
            class_url_text(remote_url, class_name).len() as int,
        ) == class_url_text(remote_url, class_name),
        object_url_text(remote_url, class_name, id)[class_url_text(
            remote_url,
            class_name,
        ).len() as int] == '/',
        object_url_text(remote_url, class_name, id).skip(
            class_url_text(remote_url, class_name).len() as int + 1,
        ) == id,
{
    let c = class_url_text(remote_url, class_name);
    let k = object_url_text(remote_url, class_name, id);
    assert(k.take(c.len() as int) =~= c);
    assert(k.skip(c.len() as int + 1) =~= id);
}

/// Two different objects of a class have different addresses.
pub proof fn lemma_object_url_distinguishes_ids(
    remote_url: Seq<char>,
    class_name: Seq<char>,
    a: Seq<char>,
    b: Seq<char>,
)
    requires
        object_url_text(remote_url, class_name, a) == object_url_text(remote_url, class_name, b),
    ensures
        a == b,
{
    lemma_object_url_parts(remote_url, class_name, a);
    lemma_object_url_parts(remote_url, class_name, b);
}

} // verus!
