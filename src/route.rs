use vstd::prelude::*;
use crate::addr::{IpAddr, IpView};

verus! {

broadcast use vstd::array::group_array_axioms;

/// Whether a route is to a network or to a single host.
#[derive(Clone, Copy, Debug, PartialEq, Eq, Structural)]
pub enum RouteType {
    Net,
    Host,
}

/// Whether a route is added or deleted.
#[derive(Clone, Copy, Debug, PartialEq, Eq, Structural)]
pub enum RouteAction {
    Add,
    Delete,
}

/// One change to the routing table, as the `route` command takes it.
#[derive(Debug)]
pub struct RouteCommand {
    pub action: RouteAction,
    pub route_type: RouteType,
    pub route: String,
    pub gateway: Option<String>,
}

/// A change to the routing table as plain values.
pub struct RouteView {
    pub action: RouteAction,
    pub route_type: RouteType,
    pub route: Seq<char>,
    pub gateway: Option<Seq<char>>,
}

impl View for RouteCommand {
    type V = RouteView;

    open spec fn view(&self) -> RouteView {
        RouteView {
            action: self.action,
            route_type: self.route_type,
            route: self.route@,
            gateway: match self.gateway {
                Some(g) => Some(g@),
                None => None,
            },
        }
    }
}

/// The arguments of `route` for a change: `-n`, `add` or `del`, `-net` or `-host`, the
/// route, and `gw` with the gateway where there is one.
pub open spec fn route_args(c: RouteView) -> Seq<Seq<char>> {
    let head = seq![
        "-n"@,
        if c.action == RouteAction::Add { "add"@ } else { "del"@ },
        if c.route_type == RouteType::Net { "-net"@ } else { "-host"@ },
        c.route,
    ];
    match c.gateway {
        Some(g) => head + seq!["gw"@, g],
        None => head,
    }
}

/// The route of the default gateway, as `route` names it.
pub open spec fn default_route() -> Seq<char> {
    "default"@
}

pub open spec fn views(cs: Seq<RouteCommand>) -> Seq<RouteView> {
    cs.map_values(|c: RouteCommand| c@)
}

impl RouteCommand {
    /// The arguments of the `route` command that makes this change.
    pub fn args(&self) -> (r: Vec<String>)
        ensures
            r@.map_values(|s: String| s@) == route_args(self@),
    {
        let mut r: Vec<String> = Vec::new();
        r.push("-n".to_owned());
        match self.action {
            RouteAction::Add => r.push("add".to_owned()),
            RouteAction::Delete => r.push("del".to_owned()),
        }
        match self.route_type {
            RouteType::Net => r.push("-net".to_owned()),
            RouteType::Host => r.push("-host".to_owned()),
        }
        r.push(self.route.clone());
        match &self.gateway {
            Some(g) => {
                r.push("gw".to_owned());
                r.push(g.clone());
            },
            None => {},
        }
        assert(r@.map_values(|s: String| s@) =~= route_args(self@));
        r
    }
}

/// Adds a route to `route` through `gateway`.
pub fn add_route(route_type: RouteType, route: &str, gateway: &str) -> (r: RouteCommand)
    ensures
        r@ == (RouteView { action: RouteAction::Add, route_type, route: route@, gateway: Some(gateway@) }),
{
    RouteCommand { action: RouteAction::Add, route_type, route: route.to_owned(), gateway: Some(gateway.to_owned()) }
}

/// Deletes the route to `route`.
pub fn delete_route(route_type: RouteType, route: &str) -> (r: RouteCommand)
    ensures
        r@ == (RouteView { action: RouteAction::Delete, route_type, route: route@, gateway: None }),
{
    RouteCommand { action: RouteAction::Delete, route_type, route: route.to_owned(), gateway: None }
}

/// Makes `gateway` the default gateway.
pub fn set_default_gateway(gateway: &str) -> (r: RouteCommand)
    ensures
        r@ == (RouteView { action: RouteAction::Add, route_type: RouteType::Net, route: default_route(), gateway: Some(gateway@) }),
{
    add_route(RouteType::Net, "default", gateway)
}

/// Removes the default gateway.
pub fn delete_default_gateway() -> (r: RouteCommand)
    ensures
        r@ == (RouteView { action: RouteAction::Delete, route_type: RouteType::Net, route: default_route(), gateway: None }),
{
    delete_route(RouteType::Net, "default")
}

/// The routes a client sets up while it is connected: a host route to the server
/// through the original default gateway and, where it takes the default route, the
/// tunnel's gateway in place of the original one.
#[derive(Debug)]
pub struct DefaultGateWay {
    pub origin: String,
    pub remote: String,
    pub gateway: String,
    pub default: bool,
}

impl DefaultGateWay {
    /// The routes for the server at `remote`, with `origin` the default gateway before
    /// the tunnel and `gateway` the tunnel's gateway.
    pub fn create(gateway: &str, remote: &str, default: bool, origin: &str) -> (r: DefaultGateWay)
        ensures
            r.origin@ == origin@,
            r.remote@ == remote@,
            r.gateway@ == gateway@,
            r.default == default,
    {
        DefaultGateWay { origin: origin.to_owned(), remote: remote.to_owned(), gateway: gateway.to_owned(), default }
    }

    /// The changes that set the routes up, in order.
    pub fn setup(&self) -> (r: Vec<RouteCommand>)
        ensures
            views(r@) == if self.default {
                seq![
                    RouteView { action: RouteAction::Add, route_type: RouteType::Host, route: self.remote@, gateway: Some(self.origin@) },
                    RouteView { action: RouteAction::Delete, route_type: RouteType::Net, route: default_route(), gateway: None },
                    RouteView { action: RouteAction::Add, route_type: RouteType::Net, route: default_route(), gateway: Some(self.gateway@) },
                ]
            } else {
                seq![RouteView { action: RouteAction::Add, route_type: RouteType::Host, route: self.remote@, gateway: Some(self.origin@) }]
            },
    {
        let mut r: Vec<RouteCommand> = Vec::new();
        r.push(add_route(RouteType::Host, self.remote.as_str(), self.origin.as_str()));
        if self.default {
            r.push(delete_default_gateway());
            r.push(set_default_gateway(self.gateway.as_str()));
        }
        assert(views(r@) =~= if self.default {
            seq![
                RouteView { action: RouteAction::Add, route_type: RouteType::Host, route: self.remote@, gateway: Some(self.origin@) },
                RouteView { action: RouteAction::Delete, route_type: RouteType::Net, route: default_route(), gateway: None },
                RouteView { action: RouteAction::Add, route_type: RouteType::Net, route: default_route(), gateway: Some(self.gateway@) },
            ]
        } else {
            seq![RouteView { action: RouteAction::Add, route_type: RouteType::Host, route: self.remote@, gateway: Some(self.origin@) }]
        });
        r
    }

    /// The changes that undo `setup`, in order: the original default gateway back, then
    /// the host route to the server gone.
    pub fn restore(&self) -> (r: Vec<RouteCommand>)
        ensures
            views(r@) == if self.default {
                seq![
                    RouteView { action: RouteAction::Delete, route_type: RouteType::Net, route: default_route(), gateway: None },
                    RouteView { action: RouteAction::Add, route_type: RouteType::Net, route: default_route(), gateway: Some(self.origin@) },
                    RouteView { action: RouteAction::Delete, route_type: RouteType::Host, route: self.remote@, gateway: None },
                ]
            } else {
                seq![RouteView { action: RouteAction::Delete, route_type: RouteType::Host, route: self.remote@, gateway: None }]
            },
    {
        let mut r: Vec<RouteCommand> = Vec::new();
        if self.default {
            r.push(delete_default_gateway());
            r.push(set_default_gateway(self.origin.as_str()));
        }
        r.push(delete_route(RouteType::Host, self.remote.as_str()));
        assert(views(r@) =~= if self.default {
            seq![
                RouteView { action: RouteAction::Delete, route_type: RouteType::Net, route: default_route(), gateway: None },
                RouteView { action: RouteAction::Add, route_type: RouteType::Net, route: default_route(), gateway: Some(self.origin@) },
                RouteView { action: RouteAction::Delete, route_type: RouteType::Host, route: self.remote@, gateway: None },
            ]
        } else {
            seq![RouteView { action: RouteAction::Delete, route_type: RouteType::Host, route: self.remote@, gateway: None }]
        });
        r
    }
}

/// A host route to `remote` through `gateway`, held while the value lives.
#[derive(Debug)]
pub struct HostRoute {
    pub remote: String,
    pub gateway: String,
}

impl HostRoute {
    pub fn create(remote: &str, gateway: &str) -> (r: HostRoute)
        ensures
            r.remote@ == remote@,
            r.gateway@ == gateway@,
    {
        HostRoute { remote: remote.to_owned(), gateway: gateway.to_owned() }
    }

    /// The change that adds the route.
    pub fn setup(&self) -> (r: RouteCommand)
        ensures
            r@ == (RouteView { action: RouteAction::Add, route_type: RouteType::Host, route: self.remote@, gateway: Some(self.gateway@) }),
    {
        add_route(RouteType::Host, self.remote.as_str(), self.gateway.as_str())
    }

    /// The change that removes it.
    pub fn restore(&self) -> (r: RouteCommand)
        ensures
            r@ == (RouteView { action: RouteAction::Delete, route_type: RouteType::Host, route: self.remote@, gateway: None }),
    {
        delete_route(RouteType::Host, self.remote.as_str())
    }
}

/// The tunnel's gateway for a client at `ip`: the address of its subnet whose last octet
/// is 1, where the server sits; 0.0.0.1 for an IPv6 address.
pub fn tunnel_gateway(ip: &IpAddr) -> (r: [u8; 4])
    ensures
        r@ == match ip@ {
            IpView::V4(o) => o.update(3, 1u8),
            IpView::V6(_) => seq![0u8, 0, 0, 1],
        },
{
    let mut o: [u8; 4] = match ip {
        IpAddr::V4(o) => *o,
        IpAddr::V6(_) => [0, 0, 0, 0],
    };
    o[3] = 1;
    assert(o@ =~= match ip@ {
        IpView::V4(v) => v.update(3, 1u8),
        IpView::V6(_) => seq![0u8, 0, 0, 1],
    });
    o
}

} // verus!
