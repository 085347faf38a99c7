use boringvpn::addr::IpAddr;
use boringvpn::device::Type;
use boringvpn::route::tunnel_gateway;
use boringvpn::route::{
    add_route, delete_default_gateway, delete_route, set_default_gateway, DefaultGateWay, HostRoute, RouteType,
};

#[test]
fn default_gateway_arguments() {
    assert_eq!(set_default_gateway("10.10.10.1").args(), vec!["-n", "add", "-net", "default", "gw", "10.10.10.1"]);
    assert_eq!(delete_default_gateway().args(), vec!["-n", "del", "-net", "default"]);
}

#[test]
fn host_route_arguments() {
    assert_eq!(add_route(RouteType::Host, "1.1.1.1", "192.168.0.1").args(), vec!["-n", "add", "-host", "1.1.1.1", "gw", "192.168.0.1"]);
    assert_eq!(delete_route(RouteType::Host, "1.1.1.1").args(), vec!["-n", "del", "-host", "1.1.1.1"]);
}

#[test]
fn default_gateway_setup_and_restore() {
    let g = DefaultGateWay::create("10.10.10.1", "203.0.113.1", true, "192.168.0.1");
    let setup: Vec<Vec<String>> = g.setup().iter().map(|c| c.args()).collect();
    assert_eq!(setup, vec![
        vec!["-n", "add", "-host", "203.0.113.1", "gw", "192.168.0.1"],
        vec!["-n", "del", "-net", "default"],
        vec!["-n", "add", "-net", "default", "gw", "10.10.10.1"],
    ]);
    let restore: Vec<Vec<String>> = g.restore().iter().map(|c| c.args()).collect();
    assert_eq!(restore, vec![
        vec!["-n", "del", "-net", "default"],
        vec!["-n", "add", "-net", "default", "gw", "192.168.0.1"],
        vec!["-n", "del", "-host", "203.0.113.1"],
    ]);
    let keep = DefaultGateWay::create("10.10.10.1", "203.0.113.1", false, "192.168.0.1");
    assert_eq!(keep.setup().len(), 1);
    assert_eq!(keep.restore()[0].args(), vec!["-n", "del", "-host", "203.0.113.1"]);
}

#[test]
fn host_route_setup_and_restore() {
    let h = HostRoute::create("1.1.1.1", "192.168.0.1");
    assert_eq!(h.setup().args(), vec!["-n", "add", "-host", "1.1.1.1", "gw", "192.168.0.1"]);
    assert_eq!(h.restore().args(), vec!["-n", "del", "-host", "1.1.1.1"]);
}

#[test]
fn device_flags() {
    assert_eq!(Type::Tun.flags(), 0x1001);
    assert_eq!(Type::Tap.flags(), 0x1002);
}

#[test]
fn tunnel_gateway_is_host_one_of_the_subnet() {
    assert_eq!(tunnel_gateway(&IpAddr::v4(10, 10, 10, 253)), [10, 10, 10, 1]);
    assert_eq!(tunnel_gateway(&IpAddr::V6([0xfe; 16])), [0, 0, 0, 1]);
}
