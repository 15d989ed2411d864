//! Routes and the endpoint capability. An endpoint is the unit of incremental
//! buildable output for one route: it can be written to disk and watched for
//! change. All endpoint variants share one write/change contract.

use vstd::prelude::*;
use crate::diagnostics::{spec_has_fatal, BuildError, Issue};

verus! {

/// The settled result of compiling one endpoint, as the memoization substrate
/// hands it over: the diagnostics collected by the strongly consistent read,
/// and the output paths the chunking contexts produced.
#[derive(Debug, Clone)]
pub struct EndpointCompilation {
    pub issues: Vec<Issue>,
    pub server_entry_path: String,
    pub server_paths: Vec<String>,
    pub client_paths: Vec<String>,
}

/// Result of a successful endpoint write: the server entry module path and
/// the concrete server and client output paths. Produced fresh on every
/// write; content-identical results are deduplicated by the memoization
/// substrate, not here.
#[derive(Debug, Clone, PartialEq, Eq)]
pub struct WrittenEndpoint {
    pub server_entry_path: String,
    pub server_paths: Vec<String>,
    pub client_paths: Vec<String>,
}

/// The endpoint value in the shape the host process consumes.
#[derive(Debug, Clone, PartialEq, Eq)]
pub struct NapiWrittenEndpoint {
    pub server_entry_path: String,
    pub server_paths: Vec<String>,
    pub client_paths: Vec<String>,
}

impl NapiWrittenEndpoint {
    /// The written endpoint in the host's shape: the same entry path and
    /// output path lists, character for character.
    pub fn from_written(written_endpoint: &WrittenEndpoint) -> (r: NapiWrittenEndpoint)
        ensures
            r.server_entry_path@ == written_endpoint.server_entry_path@,
            r.server_paths@.len() == written_endpoint.server_paths@.len(),
            forall|i: int|
                0 <= i < written_endpoint.server_paths@.len() ==> (#[trigger] r.server_paths@[i])@
                    == written_endpoint.server_paths@[i]@,
            r.client_paths@.len() == written_endpoint.client_paths@.len(),
            forall|i: int|
                0 <= i < written_endpoint.client_paths@.len() ==> (#[trigger] r.client_paths@[i])@
                    == written_endpoint.client_paths@[i]@,
    {
        NapiWrittenEndpoint {
            server_entry_path: clone_string(&written_endpoint.server_entry_path),
            server_paths: clone_string_list(&written_endpoint.server_paths),
            client_paths: clone_string_list(&written_endpoint.client_paths),
        }
    }
}

impl From<&WrittenEndpoint> for NapiWrittenEndpoint {
    fn from(written_endpoint: &WrittenEndpoint) -> (r: Self) {
        NapiWrittenEndpoint::from_written(written_endpoint)
    }
}

impl vstd::std_specs::convert::FromSpecImpl<&WrittenEndpoint> for NapiWrittenEndpoint {
    open spec fn obeys_from_spec() -> bool {
        false
    }

    open spec fn from_spec(v: &WrittenEndpoint) -> NapiWrittenEndpoint {
        arbitrary()
    }
}

fn clone_string(s: &String) -> (r: String)
    ensures
        r@ == s@,
{
    s.clone()
}

fn clone_string_list(v: &Vec<String>) -> (r: Vec<String>)
    ensures
        r@.len() == v@.len(),
        forall|i: int| 0 <= i < v@.len() ==> (#[trigger] r@[i])@ == v@[i]@,
{
    let mut out: Vec<String> = Vec::new();
    let mut i: usize = 0;
    while i < v.len()
        invariant
            i <= v@.len(),
            out@.len() == i,
            forall|j: int| 0 <= j < i ==> (#[trigger] out@[j])@ == v@[j]@,
        decreases v@.len() - i,
    {
        out.push(v[i].clone());
        i += 1;
    }
    out
}

/// Which route variant an endpoint serves.
#[derive(Clone, Copy, Debug, PartialEq, Eq, Structural)]
pub enum EndpointKind {
    PageHtml,
    PageData,
    PageApi,
    AppRoute,
}

/// One buildable, watchable route output. The state is flat: the pathname the
/// router serves it under, the original route-source name, and the source
/// file path the compilation starts from.
#[derive(Debug, Clone, PartialEq, Eq)]
pub struct Endpoint {
    pub kind: EndpointKind,
    pub pathname: String,
    pub original_name: String,
    pub path: String,
}

/// One entry of the route table.
#[derive(Debug, Clone, PartialEq, Eq)]
pub enum Route {
    Page { html_endpoint: Endpoint, data_endpoint: Endpoint },
    PageApi { endpoint: Endpoint },
    AppRoute { endpoint: Endpoint },
    /// Two independent route sources mapped to the same pathname. A sentinel,
    /// not an error: it carries no payload and needs no endpoint.
    Conflict,
}

impl Endpoint {
    pub fn new_page_html(pathname: String, original_name: String, path: String) -> (e: Endpoint)
        ensures
            e == (Endpoint { kind: EndpointKind::PageHtml, pathname, original_name, path }),
    {
        Endpoint { kind: EndpointKind::PageHtml, pathname, original_name, path }
    }

    pub fn new_page_data(pathname: String, original_name: String, path: String) -> (e: Endpoint)
        ensures
            e == (Endpoint { kind: EndpointKind::PageData, pathname, original_name, path }),
    {
        Endpoint { kind: EndpointKind::PageData, pathname, original_name, path }
    }

    pub fn new_api(pathname: String, original_name: String, path: String) -> (e: Endpoint)
        ensures
            e == (Endpoint { kind: EndpointKind::PageApi, pathname, original_name, path }),
    {
        Endpoint { kind: EndpointKind::PageApi, pathname, original_name, path }
    }

    pub fn new_app_route(pathname: String, original_name: String, path: String) -> (e: Endpoint)
        ensures
            e == (Endpoint { kind: EndpointKind::AppRoute, pathname, original_name, path }),
    {
        Endpoint { kind: EndpointKind::AppRoute, pathname, original_name, path }
    }
}

/// What `write_to_disk` returns for a settled compilation: the concrete
/// output paths on success, and the whole diagnostic batch on a fatal one.
pub open spec fn spec_write_to_disk(c: EndpointCompilation) -> Result<WrittenEndpoint, BuildError> {
    if spec_has_fatal(c.issues@) {
        Err(BuildError::FatalDiagnostic { issues: c.issues })
    } else {
        Ok(
            WrittenEndpoint {
                server_entry_path: c.server_entry_path,
                server_paths: c.server_paths,
                client_paths: c.client_paths,
            },
        )
    }
}

impl Endpoint {
    /// Turns the settled result of this endpoint's compilation into the
    /// written-endpoint value. The substrate has already blocked until every
    /// transitively triggered computation, diagnostics included, settled;
    /// this judges that result: fatal diagnostics fail the write, otherwise
    /// the concrete output paths are returned.
    pub fn write_to_disk(&self, compiled: EndpointCompilation) -> (r: Result<
        WrittenEndpoint,
        BuildError,
    >)
        ensures
            r == spec_write_to_disk(compiled),
    {
        if crate::diagnostics::has_fatal_issue(&compiled.issues) {
            Err(BuildError::FatalDiagnostic { issues: compiled.issues })
        } else {
            Ok(
                WrittenEndpoint {
                    server_entry_path: compiled.server_entry_path,
                    server_paths: compiled.server_paths,
                    client_paths: compiled.client_paths,
                },
            )
        }
    }

    /// Arms a single-shot change signal for this endpoint's inputs.
    /// Re-subscription after a firing is the caller's responsibility.
    pub fn changed(&self) -> (s: ChangeSignal)
        ensures
            s.pending == false,
    {
        ChangeSignal { pending: false }
    }
}

/// Law: the write is idempotent. With no intervening source change the
/// memoization substrate hands both calls the same settled compilation, and
/// equal compilations yield equal written endpoints.
pub proof fn lemma_write_to_disk_idempotent(c1: EndpointCompilation, c2: EndpointCompilation)
    requires
        c1 == c2,
    ensures
        spec_write_to_disk(c1) == spec_write_to_disk(c2),
{
}

/// A re-armable one-shot change notification. It is level-triggered: any
/// number of source changes between two polls collapse into one pending
/// notification.
#[derive(Debug, Clone, PartialEq, Eq, Structural)]
pub struct ChangeSignal {
    pub pending: bool,
}

impl ChangeSignal {
    pub fn new() -> (s: ChangeSignal)
        ensures
            s.pending == false,
    {
        ChangeSignal { pending: false }
    }

    /// A source change arrived: the signal becomes pending, whatever it was.
    pub fn notify(&mut self)
        ensures
            final(self).pending == true,
    {
        self.pending = true;
    }

    /// Takes the pending notification, if any, and re-arms the signal.
    pub fn poll(&mut self) -> (fired: bool)
        ensures
            fired == old(self).pending,
            final(self).pending == false,
    {
        let fired = self.pending;
        self.pending = false;
        fired
    }
}

} // verus!
