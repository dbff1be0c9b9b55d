//! Which handler answers which path, and what a handler answers.

pub use coap_lite::ResponseType;
use vstd::prelude::*;

verus! {

/// The response codes of CoAP, `coap_lite::ResponseType`.  A response
/// carries one from the handler to the transport; nothing is claimed of it.
#[verifier::external_type_specification]
#[verifier::external_body]
pub struct ExResponseType(coap_lite::ResponseType);

/// What a handler answers: a response code and the text that goes with it.
#[derive(Debug)]
pub struct MyResponse {
    code: ResponseType,
    data: String,
}

impl View for MyResponse {
    type V = (ResponseType, Seq<char>);

    closed spec fn view(&self) -> (ResponseType, Seq<char>) {
        (self.code, self.data@)
    }
}

impl MyResponse {
    /// The response with the code `code` and the text `data`.
    pub fn new(code: ResponseType, data: &str) -> (response: MyResponse)
        ensures
            response@ == (code, data@),
    {
        MyResponse { code, data: data.to_owned() }
    }

    /// The response code.
    pub fn code(&self) -> (code: ResponseType)
        ensures
            code == self@.0,
    {
        self.code
    }

    /// The text of the response.
    pub fn data(&self) -> (data: &str)
        ensures
            data@ == self@.1,
    {
        self.data.as_str()
    }
}

/// The handlers that a path can lead to.
#[derive(Clone, Copy, Debug, PartialEq, Eq, Structural)]
pub enum UrlHandler {
    /// Answers with the output average.
    AvgOut,
    /// Writes what the store holds to the log.
    Dump,
    /// Answers with the identifiers of the sensors.
    ListSensors,
    /// Sets the output selector.
    SetOutsensor,
    /// Takes in a reading.
    StoreTemp,
    /// Answers that there is nothing at the path.
    NotFound,
}

/// What a [`UrlMap`] stands for.
pub struct UrlMapView {
    /// The paths that have a handler, in the order they were added.
    pub paths: Seq<Seq<char>>,
    /// The handler of each path, in the same order.
    pub handlers: Seq<UrlHandler>,
    /// The handler of every other path.
    pub default: UrlHandler,
}

impl UrlMapView {
    /// Each path has one handler and stands in the map once.
    pub open spec fn wf(self) -> bool {
        &&& self.paths.len() == self.handlers.len()
        &&& self.paths.no_duplicates()
    }

    /// The map without paths, in which every path leads to `NotFound`.
    pub open spec fn empty() -> UrlMapView {
        UrlMapView { paths: Seq::empty(), handlers: Seq::empty(), default: UrlHandler::NotFound }
    }

    /// The handler that `urlpath` leads to: its own if it has one, else the
    /// default.
    pub open spec fn get_handler(self, urlpath: Seq<char>) -> UrlHandler {
        match self.paths.index_of_first(urlpath) {
            Some(i) => self.handlers[i],
            None => self.default,
        }
    }

    /// The map after `urlpath` has been given `handler`, in place of the
    /// handler it had if it had one.
    pub open spec fn add_path(self, urlpath: Seq<char>, handler: UrlHandler) -> UrlMapView {
        match self.paths.index_of_first(urlpath) {
            Some(i) => UrlMapView { handlers: self.handlers.update(i, handler), ..self },
            None => UrlMapView {
                paths: self.paths.push(urlpath),
                handlers: self.handlers.push(handler),
                ..self
            },
        }
    }

    /// After a path has been given a handler it leads to that handler, and
    /// every other path leads where it led before.
    pub proof fn lemma_add_path(self, urlpath: Seq<char>, handler: UrlHandler, other: Seq<char>)
        requires
            self.wf(),
        ensures
            self.add_path(urlpath, handler).wf(),
            self.add_path(urlpath, handler).get_handler(urlpath) == handler,
            other != urlpath ==> self.add_path(urlpath, handler).get_handler(other)
                == self.get_handler(other),
    {
        let after = self.add_path(urlpath, handler);
        self.paths.index_of_first_ensures(urlpath);
        self.paths.index_of_first_ensures(other);
        after.paths.index_of_first_ensures(urlpath);
        after.paths.index_of_first_ensures(other);
        match self.paths.index_of_first(urlpath) {
            Some(i) => {},
            None => {
                assert(after.paths[self.paths.len() as int] == urlpath);
                assert forall|i: int, j: int|
                    0 <= i < after.paths.len() && 0 <= j < after.paths.len() && i
                        != j implies after.paths[i] != after.paths[j] by {
                    if i < self.paths.len() {
                        assert(self.paths[i] == after.paths[i]);
                    }
                    if j < self.paths.len() {
                        assert(self.paths[j] == after.paths[j]);
                    }
                }
                if other != urlpath {
                    match self.paths.index_of_first(other) {
                        Some(k) => {
                            assert(after.paths[k] == other);
                        },
                        None => {
                            if after.paths.contains(other) {
                                let k = after.paths.index_of_first(other).unwrap();
                                assert(self.paths[k] == other);
                            }
                        },
                    }
                }
            },
        }
    }
}

/// The paths that the service answers at and the handler of each, with a
/// default handler for every other path.
#[derive(Debug)]
pub struct UrlMap {
    map: Vec<(String, UrlHandler)>,
    default: UrlHandler,
}

impl View for UrlMap {
    type V = UrlMapView;

    closed spec fn view(&self) -> UrlMapView {
        UrlMapView {
            paths: Seq::new(self.map@.len(), |i: int| self.map@[i].0@),
            handlers: Seq::new(self.map@.len(), |i: int| self.map@[i].1),
            default: self.default,
        }
    }
}

/// The largest number of paths a map can be asked to set room aside for:
/// room for this many can be asked for on every machine.
pub const MAX_PATHS: usize = 0x03ff_ffff;

impl UrlMap {
    /// The map is valid: every constructor makes it so and every operation
    /// keeps it so.
    pub open spec fn wf(&self) -> bool {
        self@.wf()
    }

    /// A map without paths, in which every path leads to `NotFound`.
    pub fn new() -> (urlmap: UrlMap)
        ensures
            urlmap.wf(),
            urlmap@ == UrlMapView::empty(),
    {
        UrlMap::new_cap(8)
    }

    /// A map without paths, in which every path leads to `NotFound`, with
    /// room set aside for `cap` paths.
    pub fn new_cap(cap: usize) -> (urlmap: UrlMap)
        requires
            cap <= MAX_PATHS,
        ensures
            urlmap.wf(),
            urlmap@ == UrlMapView::empty(),
    {
        let urlmap = UrlMap { map: Vec::with_capacity(cap), default: UrlHandler::NotFound };
        proof {
            assert(urlmap@.paths =~= Seq::empty());
            assert(urlmap@.handlers =~= Seq::empty());
        }
        urlmap
    }

    /// The map with `urlpath` given `handler`.
    pub fn with_path(self, urlpath: &str, handler: UrlHandler) -> (urlmap: UrlMap)
        requires
            self.wf(),
        ensures
            urlmap.wf(),
            urlmap@ == self@.add_path(urlpath@, handler),
    {
        let mut urlmap = self;
        urlmap.add_path(urlpath, handler);
        urlmap
    }

    /// Takes every path out of the map and makes `NotFound` the default
    /// again.
    pub fn clear(&mut self) -> (urlmap: &mut Self)
        ensures
            urlmap.wf(),
            urlmap@ == UrlMapView::empty(),
            *final(self) == *final(urlmap),
    {
        self.map.clear();
        proof {
            assert(self@.paths =~= Seq::empty());
            assert(self@.handlers =~= Seq::empty());
        }
        self.set_default(UrlHandler::NotFound)
    }

    /// Makes `handler` the handler of every path that has none of its own.
    pub fn set_default(&mut self, handler: UrlHandler) -> (urlmap: &mut Self)
        ensures
            urlmap@ == (UrlMapView { default: handler, ..old(self)@ }),
            *final(self) == *final(urlmap),
    {
        self.default = handler;
        self
    }

    /// Where `urlpath` stands in the map.
    fn find(&self, urlpath: &String) -> (found: Option<usize>)
        ensures
            match found {
                Some(i) => self@.paths.index_of_first(urlpath@) == Some(i as int) && i
                    < self.map@.len(),
                None => self@.paths.index_of_first(urlpath@) is None,
            },
    {
        let n: usize = self.map.len();
        let mut i: usize = 0;
        while i < n
            invariant
                n == self.map@.len(),
                0 <= i <= n,
                forall|j: int| 0 <= j < i ==> self@.paths[j] != urlpath@,
            decreases n - i,
        {
            if self.map[i].0 == *urlpath {
                proof {
                    self@.paths.index_of_first_ensures(urlpath@);
                    assert(self@.paths[i as int] == urlpath@);
                }
                return Some(i);
            }
            i += 1;
        }
        proof {
            self@.paths.index_of_first_ensures(urlpath@);
        }
        None
    }

    /// Gives `urlpath` the handler `handler`, in place of the handler it had
    /// if it had one.
    pub fn add_path(&mut self, urlpath: &str, handler: UrlHandler) -> (urlmap: &mut Self)
        requires
            old(self).wf(),
        ensures
            urlmap.wf(),
            urlmap@ == old(self)@.add_path(urlpath@, handler),
            *final(self) == *final(urlmap),
    {
        let path: String = urlpath.to_owned();
        proof {
            old(self)@.lemma_add_path(urlpath@, handler, urlpath@);
        }
        match self.find(&path) {
            Some(i) => {
                self.map[i].1 = handler;
                proof {
                    assert(self@.paths =~= old(self)@.paths);
                    assert(self@.handlers =~= old(self)@.handlers.update(i as int, handler));
                }
            },
            None => {
                self.map.push((path, handler));
                proof {
                    assert(self@.paths =~= old(self)@.paths.push(urlpath@));
                    assert(self@.handlers =~= old(self)@.handlers.push(handler));
                }
            },
        }
        self
    }

    /// The handler that `urlpath` leads to: its own if it has one, else the
    /// default.
    pub fn get_handler(&self, urlpath: &str) -> (handler: UrlHandler)
        ensures
            handler == self@.get_handler(urlpath@),
    {
        let path: String = urlpath.to_owned();
        match self.find(&path) {
            Some(i) => self.map[i].1,
            None => self.default,
        }
    }

    /// The number of paths that have a handler of their own.
    pub fn len(&self) -> (n: usize)
        ensures
            n == self@.paths.len(),
    {
        self.map.len()
    }
}

} // verus!
