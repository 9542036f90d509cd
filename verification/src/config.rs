//! Configuration surface: what a caller describes a load with, and the
//! decisions the library takes from it.

use vstd::prelude::*;

verus! {

/// How the transport client is to be built: retry budget, TLS, optional
/// root certificate.
pub struct ClientConfig {
    pub n_retries: u32,
    pub tls_cert: Option<String>,
    pub use_tls: bool,
}

/// Builder for [`ClientConfig`]; the retry budget falls back to five.
pub struct ClientConfigBuilder {
    pub use_tls: bool,
    pub tls_cert: Option<String>,
    pub n_retries: Option<u32>,
}

impl ClientConfig {
    pub fn builder() -> (r: ClientConfigBuilder)
        ensures
            r.n_retries is None,
            r.tls_cert is None,
            !r.use_tls,
    {
        ClientConfigBuilder::new()
    }
}

impl ClientConfigBuilder {
    pub fn new() -> (r: ClientConfigBuilder)
        ensures
            r.n_retries is None,
            r.tls_cert is None,
            !r.use_tls,
    {
        (ClientConfigBuilder { n_retries: None, tls_cert: None, use_tls: false })
    }

    pub fn n_retries(self, n: u32) -> (r: ClientConfigBuilder)
        ensures
            r == (ClientConfigBuilder { n_retries: Some(n), ..self }),
    {
        let mut s = self;
        s.n_retries = Some(n);
        s
    }

    pub fn tls_cert_opt(self, cert: Option<String>) -> (r: ClientConfigBuilder)
        ensures
            r == (ClientConfigBuilder { tls_cert: cert, ..self }),
    {
        let mut s = self;
        s.tls_cert = cert;
        s
    }

    pub fn use_tls(self, use_tls: bool) -> (r: ClientConfigBuilder)
        ensures
            r == (ClientConfigBuilder { use_tls: use_tls, ..self }),
    {
        let mut s = self;
        s.use_tls = use_tls;
        s
    }

    /// Close the builder; an unset retry budget becomes five.
    pub fn build(self) -> (r: ClientConfig)
        ensures
            r.n_retries == (match self.n_retries {
                Some(n) => n,
                None => 5u32,
            }),
            r.tls_cert == self.tls_cert,
            r.use_tls == self.use_tls,
    {
        let n = match self.n_retries {
            Some(n) => n,
            None => 5,
        };
        (ClientConfig { n_retries: n, tls_cert: self.tls_cert, use_tls: self.use_tls })
    }
}

/// One vertex or edge collection to load and the document fields to
/// retrieve from it.
pub struct CollectionDescription {
    pub name: String,
    pub fields: Vec<String>,
}

/// Where the database lives and how to authenticate against it.
pub struct DatabaseConfiguration {
    pub endpoints: Vec<String>,
    pub username: Option<String>,
    pub password: Option<String>,
    pub jwt_token: Option<String>,
    pub tls_cert: Option<String>,
}

impl DatabaseConfiguration {
    /// The local single-server development setup.
    pub fn default() -> (r: DatabaseConfiguration)
        ensures
            r.endpoints@.len() == 1 && r.endpoints@[0]@ == "http://localhost:8529"@,
            r.username matches Some(u) && u@ == "root"@,
            r.password matches Some(p) && p@ == ""@,
            r.jwt_token is None,
            r.tls_cert is None,
    {
        let mut endpoints: Vec<String> = Vec::new();
        endpoints.push("http://localhost:8529".to_owned());
        (DatabaseConfiguration {
            endpoints,
            username: Some("root".to_owned()),
            password: Some("".to_owned()),
            jwt_token: None,
            tls_cert: None,
        })
    }
}

/// How hard to drive a load: fetch-task parallelism, page size, prefetch
/// depth, and whether whole documents are wanted instead of selected
/// fields.
pub struct DataLoadConfiguration {
    pub database_config: DatabaseConfiguration,
    pub parallelism: Option<u32>,
    pub batch_size: Option<u64>,
    pub prefetch_count: u32,
    pub load_all_vertex_attributes: bool,
    pub load_all_edge_attributes: bool,
}

impl DataLoadConfiguration {
    /// Five parallel tasks over pages of four hundred thousand documents,
    /// five pages prefetched, selected fields only, against the default
    /// database configuration.
    pub fn default() -> (r: DataLoadConfiguration)
        ensures
            r.parallelism == Some(5u32),
            r.batch_size == Some(400000u64),
            r.prefetch_count == 5u32,
            !r.load_all_vertex_attributes,
            !r.load_all_edge_attributes,
            r.database_config.endpoints@.len() == 1 && r.database_config.endpoints@[0]@
                == "http://localhost:8529"@,
            r.database_config.username matches Some(u) && u@ == "root"@,
            r.database_config.password matches Some(p) && p@ == ""@,
            r.database_config.jwt_token is None,
            r.database_config.tls_cert is None,
    {
        (DataLoadConfiguration {
            database_config: DatabaseConfiguration::default(),
            parallelism: Some(5),
            batch_size: Some(400000),
            prefetch_count: 5,
            load_all_vertex_attributes: false,
            load_all_edge_attributes: false,
        })
    }
}

/// A whole load request: the database, the vertex and edge collections
/// with their field selections, and the load configuration.
pub struct DataLoadRequest {
    pub database: String,
    pub vertex_collections: Vec<CollectionDescription>,
    pub edge_collections: Vec<CollectionDescription>,
    pub configuration: DataLoadConfiguration,
}

/// Shape flags of the node-and-adjacency output.
pub struct NetworkXGraphConfig {
    pub load_adj_dict: bool,
    pub load_coo: bool,
    pub is_directed: bool,
    pub is_multigraph: bool,
    pub symmetrize_edges_if_directed: bool,
}

/// Which authentication a request carries: a configured token wins over
/// basic credentials; without either the request goes out bare.
pub enum AuthMethod {
    Bearer(String),
    Basic(String, Option<String>),
    NoAuth,
}

/// Decide the authentication for a request from the configuration.
pub fn select_auth(db: &DatabaseConfiguration) -> (r: AuthMethod)
    ensures
        match db.jwt_token {
            Some(t) => r matches AuthMethod::Bearer(b) && b@ == t@,
            None => match db.username {
                Some(u) => r matches AuthMethod::Basic(b, p) && b@ == u@ && p.deep_view()
                    == db.password.deep_view(),
                None => r is NoAuth,
            },
        },
{
    match &db.jwt_token {
        Some(t) => AuthMethod::Bearer(t.clone()),
        None => match &db.username {
            Some(u) => {
                let p = match &db.password {
                    Some(pw) => Some(pw.clone()),
                    None => None,
                };
                AuthMethod::Basic(u.clone(), p)
            },
            None => AuthMethod::NoAuth,
        },
    }
}

/// The field list a collection's retrieval asks for: the collection tag is
/// prepended unless whole documents are wanted, then the declared fields in
/// order.
pub open spec fn spec_prepared_fields(fields: Seq<Seq<char>>, load_all: bool) -> Seq<Seq<char>> {
    if load_all {
        fields
    } else {
        seq!["@collection_name"@] + fields
    }
}

/// Build the field lists for retrieval, prepending the collection tag when
/// selected fields are wanted.
#[verifier::loop_isolation(false)]
pub fn prepare_collection_fields(cols: &Vec<CollectionDescription>, load_all: bool) -> (r: Vec<
    CollectionDescription,
>)
    ensures
        r@.len() == cols@.len(),
        forall|i: int|
            0 <= i < cols@.len() ==> (#[trigger] r@[i]).name@ == cols@[i].name@
                && r@[i].fields.deep_view() == spec_prepared_fields(
                cols@[i].fields.deep_view(),
                load_all,
            ),
{
    let mut out: Vec<CollectionDescription> = Vec::new();
    let n = cols.len();
    let mut i: usize = 0;
    while i < n
        invariant
            i <= n,
            out@.len() == i,
            forall|j: int|
                0 <= j < i ==> (#[trigger] out@[j]).name@ == cols@[j].name@
                    && out@[j].fields.deep_view() == spec_prepared_fields(
                    cols@[j].fields.deep_view(),
                    load_all,
                ),
        decreases n - i,
    {
        let mut fields: Vec<String> = Vec::new();
        if !load_all {
            fields.push("@collection_name".to_owned());
        }
        let src = &cols[i].fields;
        let m = src.len();
        let mut k: usize = 0;
        while k < m
            invariant
                k <= m,
                m == src@.len(),
                load_all ==> fields@.len() == k,
                !load_all ==> fields@.len() == k + 1 && fields@[0]@ == "@collection_name"@,
                load_all ==> forall|q: int| 0 <= q < k ==> (#[trigger] fields@[q])@ == src@[q]@,
                !load_all ==> forall|q: int|
                    0 <= q < k ==> (#[trigger] fields@[q + 1])@ == src@[q]@,
            decreases m - k,
        {
            fields.push(src[k].clone());
            k += 1;
        }
        proof {
            let want = spec_prepared_fields(cols@[i as int].fields.deep_view(), load_all);
            assert(fields.deep_view().len() == want.len());
            assert forall|q: int| 0 <= q < want.len() implies fields.deep_view()[q]
                == want[q] by {
                if load_all {
                    assert(fields@[q]@ == src@[q]@);
                } else {
                    if q == 0 {
                        assert(fields@[0]@ == "@collection_name"@);
                    } else {
                        assert(fields@[(q - 1) + 1]@ == src@[q - 1]@);
                    }
                }
            }
            assert(fields.deep_view() =~= want);
        }
        let name = cols[i].name.clone();
        out.push((CollectionDescription { name, fields }));
        i += 1;
    }
    out
}


/// A field list with each name's first occurrence kept and later repeats
/// dropped, so that a document contributes one value per field.
pub open spec fn dedup_names(s: Seq<String>) -> Seq<String>
    decreases s.len(),
{
    if s.len() == 0 {
        Seq::empty()
    } else {
        let prev = dedup_names(s.drop_last());
        if crate::graph::has_name(prev, s.last()@) {
            prev
        } else {
            prev.push(s.last())
        }
    }
}

pub broadcast proof fn lemma_dedup_names(s: Seq<String>)
    ensures
        forall|a: int, b: int|
            0 <= a < b < (#[trigger] dedup_names(s)).len() ==> dedup_names(s)[a]@
                != dedup_names(s)[b]@,
        forall|n: Seq<char>|
            #[trigger] crate::graph::has_name(dedup_names(s), n) <==> crate::graph::has_name(
                s,
                n,
            ),
    decreases s.len(),
{
    if s.len() > 0 {
        lemma_dedup_names(s.drop_last());
        let prev = dedup_names(s.drop_last());
        let cur = dedup_names(s);
        assert forall|n: Seq<char>|
            #[trigger] crate::graph::has_name(cur, n) <==> crate::graph::has_name(s, n) by {
            if crate::graph::has_name(cur, n) {
                let w = choose|w: int| 0 <= w < cur.len() && cur[w]@ == n;
                if w < prev.len() && cur[w] == prev[w] {
                    assert(crate::graph::has_name(prev, n));
                    let q = choose|q: int| 0 <= q < s.drop_last().len() && s.drop_last()[q]@ == n;
                    assert(s[q]@ == n);
                } else {
                    assert(s[s.len() - 1]@ == n);
                }
            }
            if crate::graph::has_name(s, n) {
                let w = choose|w: int| 0 <= w < s.len() && s[w]@ == n;
                if w < s.len() - 1 {
                    assert(s.drop_last()[w]@ == n);
                    assert(crate::graph::has_name(prev, n));
                    let q = choose|q: int| 0 <= q < prev.len() && prev[q]@ == n;
                    if !crate::graph::has_name(prev, s.last()@) {
                        assert(cur[q]@ == n);
                    } else {
                        assert(cur[q]@ == n);
                    }
                } else {
                    if crate::graph::has_name(prev, n) {
                        let q = choose|q: int| 0 <= q < prev.len() && prev[q]@ == n;
                        assert(cur[q]@ == n);
                    } else {
                        assert(cur[cur.len() - 1]@ == n);
                    }
                }
            }
        }
        assert forall|a: int, b: int| 0 <= a < b < cur.len() implies cur[a]@ != cur[b]@ by {
            if b < prev.len() {
            } else {
                if cur.len() > prev.len() {
                    assert(cur[b] == s.last());
                    assert(!crate::graph::has_name(prev, s.last()@));
                    if cur[a]@ == cur[b]@ {
                        assert(prev[a]@ == s.last()@);
                        assert(crate::graph::has_name(prev, s.last()@));
                    }
                }
            }
        }
    }
}

/// Drop later repeats of a field name, keeping each name's first
/// occurrence.
#[verifier::loop_isolation(false)]
pub fn dedup_fields(fields: &Vec<String>) -> (r: Vec<String>)
    ensures
        r@ == dedup_names(fields@),
{
    let mut out: Vec<String> = Vec::new();
    let n = fields.len();
    proof {
        assert(fields@.take(0) =~= Seq::<String>::empty());
    }
    let mut i: usize = 0;
    while i < n
        invariant
            i <= n,
            out@ == dedup_names(fields@.take(i as int)),
        decreases n - i,
    {
        let mut seen: bool = false;
        let m = out.len();
        let mut k: usize = 0;
        while k < m && !seen
            invariant
                k <= m,
                m == out@.len(),
                seen ==> crate::graph::has_name(out@, fields@[i as int]@),
                !seen ==> forall|j: int| 0 <= j < k ==> out@[j]@ != fields@[i as int]@,
            decreases m - k + if seen {
                0int
            } else {
                1int
            },
    {
            if out[k] == fields[i] {
                seen = true;
            } else {
                k += 1;
            }
        }
        proof {
            if !seen {
                if crate::graph::has_name(out@, fields@[i as int]@) {
                    let w = choose|w: int| 0 <= w < out@.len() && out@[w]@ == fields@[i as int]@;
                }
            }
            assert(fields@.take(i + 1).drop_last() =~= fields@.take(i as int));
            assert(fields@.take(i + 1).last() == fields@[i as int]);
        }
        if !seen {
            out.push(fields[i].clone());
        }
        i += 1;
    }
    proof {
        assert(fields@.take(n as int) =~= fields@);
    }
    out
}

/// Position of the first description of a collection; the length when none
/// describes it.
pub open spec fn first_col_index(cols: Seq<CollectionDescription>, name: Seq<char>) -> int
    decreases cols.len(),
{
    if cols.len() == 0 {
        0
    } else if cols[0].name@ == name {
        0
    } else {
        1 + first_col_index(cols.skip(1), name)
    }
}

/// Whether some description names the collection.
pub open spec fn has_col(cols: Seq<CollectionDescription>, name: Seq<char>) -> bool {
    exists|i: int| 0 <= i < cols.len() && (#[trigger] cols[i]).name@ == name
}

/// The field list of the first description of a collection, if one does.
pub open spec fn spec_fields_for(cols: Seq<CollectionDescription>, name: Seq<char>) -> Option<
    Vec<String>,
> {
    if has_col(cols, name) {
        Some(cols[first_col_index(cols, name)].fields)
    } else {
        None
    }
}

pub proof fn lemma_first_col_index(cols: Seq<CollectionDescription>, name: Seq<char>)
    ensures
        0 <= first_col_index(cols, name) <= cols.len(),
        has_col(cols, name) <==> first_col_index(cols, name) < cols.len(),
        forall|j: int| 0 <= j < first_col_index(cols, name) ==> cols[j].name@ != name,
        first_col_index(cols, name) < cols.len() ==> cols[first_col_index(cols, name)].name@
            == name,
    decreases cols.len(),
{
    if cols.len() == 0 {
    } else if cols[0].name@ == name {
    } else {
        lemma_first_col_index(cols.skip(1), name);
        assert forall|j: int| 0 <= j < first_col_index(cols, name) implies cols[j].name@
            != name by {
            if j > 0 {
                assert(cols.skip(1)[j - 1] == cols[j]);
            }
        }
        if has_col(cols, name) {
            let w = choose|w: int| 0 <= w < cols.len() && (#[trigger] cols[w]).name@ == name;
            assert(cols.skip(1)[w - 1] == cols[w]);
        }
        if has_col(cols.skip(1), name) {
            let w = choose|w: int|
                0 <= w < cols.skip(1).len() && (#[trigger] cols.skip(1)[w]).name@ == name;
            assert(cols[w + 1] == cols.skip(1)[w]);
        }
    }
}

/// Look a collection's field list up among the descriptions.
#[verifier::loop_isolation(false)]
pub fn fields_for<'a>(cols: &'a Vec<CollectionDescription>, name: &String) -> (r: Option<&'a Vec<
    String,
>>)
    ensures
        match r {
            Some(f) => spec_fields_for(cols@, name@) == Some(*f),
            None => spec_fields_for(cols@, name@) is None,
        },
{
    proof {
        lemma_first_col_index(cols@, name@);
    }
    let n = cols.len();
    let mut i: usize = 0;
    while i < n
        invariant
            i <= n,
            forall|j: int| 0 <= j < i ==> cols@[j].name@ != name@,
        decreases n - i,
    {
        if cols[i].name == *name {
            proof {
                assert(has_col(cols@, name@)) by {
                    assert(cols@[i as int].name@ == name@);
                }
                assert(first_col_index(cols@, name@) == i);
            }
            return Some(&cols[i].fields);
        }
        i += 1;
    }
    proof {
        if has_col(cols@, name@) {
            let w = choose|w: int| 0 <= w < cols@.len() && (#[trigger] cols@[w]).name@ == name@;
        }
    }
    None
}

} // verus!
