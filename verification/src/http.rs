//! The configuration data model: headers, responses, routes, the router,
//! the server and the persisted root, with their document codec.

pub mod header;
pub mod method;
pub mod response;
pub mod route;
pub mod router;
pub mod server;
pub mod serverinfo;

pub mod response_type;

pub use header::Header;
pub use method::Method;
pub use response::Response;
pub use route::Route;
pub use router::Router;
pub use server::Server;
pub use serverinfo::ServerInfo;
pub use response_type::ResponseType;
