//! The command that creates a fresh configuration file.

use vstd::prelude::*;

use crate::errors::AddressError;
use crate::http::method::Method;
use crate::http::response::Response;
use crate::http::response_type::ResponseType;
use crate::http::route::active_response_of;
use crate::http::route::Route;
use crate::http::serverinfo::ServerInfo;
use crate::ipaddr::is_valid_ip;

verus! {

#[derive(Debug)]
pub struct NewCommand {
    pub config_path: String,
    pub name: String,
    pub address: String,
    pub port: u16,
    pub confirm: bool,
}

impl NewCommand {
    /// The configuration this command writes: the requested name,
    /// address and port, and one example route answering `Hello, World`;
    /// an invalid listen address is rejected.
    pub fn build_server_info(&self) -> (r: Result<ServerInfo, AddressError>)
        ensures
            r is Ok <==> is_valid_ip(self.address@),
            r matches Ok(si) ==> si@.wf() && si@.server.address == self.address@ && si@.server.port
                == self.port && si@.server.name == self.name@ && si@.server.description.len() == 0
                && si@.router.routes.len() == 1 && si@.router.routes[0].path == "/hello-world"@
                && si@.router.routes[0].method == Method::GET && si@.router.routes[0].responses.len()
                == 1 && si@.router.routes[0].responses[0].status == 200
                && si@.router.routes[0].responses[0].response == "Hello, World"@
                && si@.router.routes[0].responses[0].response_type == ResponseType::Text
                && active_response_of(si@.router.routes[0]) == Some(
                si@.router.routes[0].responses[0],
            ),
            r matches Err(e) ==> e.address@ == self.address@,
    {
        if !crate::ipaddr::check_ip_str(self.address.as_str()) {
            return Err(AddressError { address: self.address.clone() });
        }
        let response = Response::new("Example", 200, ResponseType::Text, "Hello, World");
        let resp_id = response.id.clone();
        proof {
            crate::http::response::lemma_response_fields(&response);
        }
        let ghost respv = response@;
        let mut route = Route::new("/hello-world", Method::GET);
        route.add_response(response);
        route.set_active_response(resp_id.as_str());
        proof {
            assert(route@.responses.len() == 1);
            assert(route@.responses[0] == respv);
            assert(route@.responses[0].id == resp_id@);
            assert(crate::http::route::find_response(route@.responses, resp_id@, 0) == Some(0int));
        }
        let mut serverinfo = match ServerInfo::new() {
            Ok(si) => si,
            Err(e) => {
                return Err(e);
            },
        };
        serverinfo.server.address = self.address.clone();
        serverinfo.server.port = self.port;
        serverinfo.server.name = self.name.clone();
        serverinfo.server.description = String::new();
        serverinfo.router.add_route(route);
        proof {
            assert(serverinfo@.router.routes.len() == 1);
            assert(serverinfo@.router.wf());
        }
        Ok(serverinfo)
    }
}

} // verus!
