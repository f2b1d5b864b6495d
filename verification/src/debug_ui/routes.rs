//! Where the debugging interface listens, and what it serves.

use crate::text;
use vstd::prelude::*;

verus! {

/// How a page is asked for.
#[derive(Debug, Clone, Copy, PartialEq, Eq, Structural)]
pub enum Method {
    Get,
    Post,
    Other,
}

/// What is served.
#[derive(Debug, Clone, Copy, PartialEq, Eq, Structural)]
pub enum Route {
    Page,
    Examples,
    ExamplesManifest,
    WasmShim,
    Control,
    NotFound,
}

/// What is served for a request.
pub open spec fn served(method: Method, url: Seq<char>) -> Route {
    match method {
        Method::Get => if url == "/"@ {
            Route::Page
        } else if url == "/api/v1/examples"@ {
            Route::Examples
        } else if url == "/assets/examples.json"@ {
            Route::ExamplesManifest
        } else if url == "/assets/wasm/hecate_vm_wasm.js"@ {
            Route::WasmShim
        } else {
            Route::NotFound
        },
        Method::Post => if url == "/api/v1/control"@ {
            Route::Control
        } else {
            Route::NotFound
        },
        Method::Other => Route::NotFound,
    }
}

/// What is served for a request.
pub fn route(method: Method, url: &str) -> (route: Route)
    ensures
        route == served(method, url@),
{
    match method {
        Method::Get => if text::same(url, "/") {
            Route::Page
        } else if text::same(url, "/api/v1/examples") {
            Route::Examples
        } else if text::same(url, "/assets/examples.json") {
            Route::ExamplesManifest
        } else if text::same(url, "/assets/wasm/hecate_vm_wasm.js") {
            Route::WasmShim
        } else {
            Route::NotFound
        },
        Method::Post => if text::same(url, "/api/v1/control") {
            Route::Control
        } else {
            Route::NotFound
        },
        Method::Other => Route::NotFound,
    }
}

/// The address at which a port of this computer is listened to.
pub open spec fn address(port: u16) -> Seq<char> {
    "127.0.0.1:"@ + text::dec(port as nat)
}

/// The address at which a port of this computer is listened to.
pub fn bind_address(port: u16) -> (text: String)
    ensures
        text@ == address(port),
{
    "127.0.0.1:".to_owned().concat(text::to_dec(port as u64).as_str())
}

/// The port of the websocket: the next one, or the last one there is.
pub fn websocket_port(port: u16) -> (ws_port: u16)
    ensures
        ws_port == (if port < u16::MAX {
            (port + 1) as u16
        } else {
            u16::MAX
        }),
{
    port.saturating_add(1)
}

/// What is served where: pages and lists to those who get them, and control to those who post to
/// it. Nothing else is found, nor anything under another method.
pub proof fn law_routes(url: Seq<char>)
    ensures
        served(Method::Get, "/"@) == Route::Page,
        served(Method::Get, "/api/v1/examples"@) == Route::Examples,
        served(Method::Get, "/assets/examples.json"@) == Route::ExamplesManifest,
        served(Method::Get, "/assets/wasm/hecate_vm_wasm.js"@) == Route::WasmShim,
        served(Method::Post, "/api/v1/control"@) == Route::Control,
        served(Method::Get, "/api/v1/control"@) == Route::NotFound,
        served(Method::Other, url) == Route::NotFound,
        served(Method::Post, url) == Route::NotFound <==> url != "/api/v1/control"@,
        served(Method::Get, url) == Route::NotFound <==> url != "/"@ && url != "/api/v1/examples"@
            && url != "/assets/examples.json"@ && url != "/assets/wasm/hecate_vm_wasm.js"@,
{
    reveal_strlit("/");
    reveal_strlit("/api/v1/examples");
    reveal_strlit("/assets/examples.json");
    reveal_strlit("/assets/wasm/hecate_vm_wasm.js");
    reveal_strlit("/api/v1/control");
    assert("/"@.len() == 1);
    assert("/api/v1/examples"@.len() == 16);
    assert("/assets/examples.json"@.len() == 21);
    assert("/assets/wasm/hecate_vm_wasm.js"@.len() == 30);
    assert("/api/v1/control"@.len() == 15);
}

/// This computer alone is listened to, at the port that was asked for.
pub proof fn law_addresses(port: u16)
    ensures
        address(port) == "127.0.0.1:"@ + text::dec(port as nat),
{
}

} // verus!
