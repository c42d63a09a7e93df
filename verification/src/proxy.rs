//! Finding a proxy on this computer.
use crate::number;
use crate::text;
use std::collections::HashMap;
use vstd::prelude::*;

verus! {

/// The ports at which a proxy is looked for, in this order.
pub const PROXY_AUTO_DETECT_PORTS: [u16; 5] = [7897, 7890, 10809, 10808, 1080];

/// Whether a name is that of a variable for proxies.
pub open spec fn is_proxy_variable(name: Seq<char>) -> bool {
    name == "HTTPS_PROXY"@ || name == "HTTP_PROXY"@ || name == "ALL_PROXY"@ || name
        == "https_proxy"@ || name == "http_proxy"@ || name == "all_proxy"@
}

/// Whether a variable for proxies has a value.
pub open spec fn names_proxy(env: Map<String, String>) -> bool {
    exists|key: String| #[trigger]
        env.contains_key(key) && is_proxy_variable(key@) && env[key]@.len() > 0
}

/// `HashMap::get` gives the value under the key that is the same text, and none where there is no
/// such key.
#[verifier::external_body]
fn variable<'a>(env: &'a HashMap<String, String>, name: &str) -> (r: Option<&'a String>)
    ensures
        match r {
            Some(value) => (exists|key: String| #[trigger] env@.contains_key(key) && key@ == name@)
                && (forall|key: String| #[trigger]
                env@.contains_key(key) && key@ == name@ ==> env@[key]@ == value@),
            None => forall|key: String| #[trigger] env@.contains_key(key) ==> key@ != name@,
        },
{
    env.get(name)
}

fn has_value(env: &HashMap<String, String>, name: &str) -> (r: bool)
    requires
        is_proxy_variable(name@),
    ensures
        r ==> names_proxy(env@),
        !r ==> forall|key: String| #[trigger]
            env@.contains_key(key) && key@ == name@ ==> env@[key]@.len() == 0,
{
    match variable(env, name) {
        Some(value) => {
            let ghost key = choose|key: String| #[trigger]
                env@.contains_key(key) && key@ == name@;
            assert(env@.contains_key(key) && is_proxy_variable(key@));
            text::chars_of(value.as_str()).len() > 0
        },
        None => false,
    }
}

/// Whether the environment names a proxy.
pub fn has_proxy_environment(env: &HashMap<String, String>) -> (r: bool)
    ensures
        r == names_proxy(env@),
{
    has_value(env, "HTTPS_PROXY") || has_value(env, "HTTP_PROXY") || has_value(env, "ALL_PROXY")
        || has_value(env, "https_proxy") || has_value(env, "http_proxy") || has_value(
        env,
        "all_proxy",
    )
}

/// The address of a proxy at a port of this computer.
pub open spec fn proxy_address(port: u16) -> Seq<char> {
    "http://127.0.0.1:"@ + number::decimal(port as nat)
}

/// The address of the first port, in their order, at which a connection can be made.
pub fn detect_local_proxy_with<F: Fn(u16) -> bool>(can_connect: F) -> (r: Option<String>)
    requires
        forall|port: u16| call_requires(can_connect, (port,)),
    ensures
        match r {
            Some(address) => exists|i: int|
                0 <= i < PROXY_AUTO_DETECT_PORTS@.len() && address@ == proxy_address(
                    #[trigger] PROXY_AUTO_DETECT_PORTS@[i],
                ) && call_ensures(can_connect, (PROXY_AUTO_DETECT_PORTS@[i],), true) && forall|j: int|
                    0 <= j < i ==> call_ensures(
                        can_connect,
                        (#[trigger] PROXY_AUTO_DETECT_PORTS@[j],),
                        false,
                    ),
            None => forall|j: int|
                0 <= j < PROXY_AUTO_DETECT_PORTS@.len() ==> call_ensures(
                    can_connect,
                    (#[trigger] PROXY_AUTO_DETECT_PORTS@[j],),
                    false,
                ),
        },
{
    let ports = PROXY_AUTO_DETECT_PORTS;
    for i in 0..ports.len()
        invariant
            ports == PROXY_AUTO_DETECT_PORTS,
            forall|port: u16| call_requires(can_connect, (port,)),
            forall|j: int|
                0 <= j < i ==> call_ensures(
                    can_connect,
                    (#[trigger] PROXY_AUTO_DETECT_PORTS@[j],),
                    false,
                ),
    {
        let port = ports[i];
        if can_connect(port) {
            assert(PROXY_AUTO_DETECT_PORTS@[i as int] == port);
            let number = text::text_of(number::decimal_chars(port as u128).as_slice());
            return Some("http://127.0.0.1:".to_owned().concat(number.as_str()));
        }
    }
    None
}

/// A proxy is named by one of six variables that has a value, and by no other.
pub proof fn law_proxy_is_named_by_its_variables(env: HashMap<String, String>, key: String, r: bool)
    requires
        call_ensures(has_proxy_environment, (&env,), r),
    ensures
        env@.contains_key(key) && env@[key]@.len() > 0 && (key@ == "HTTPS_PROXY"@ || key@
            == "HTTP_PROXY"@ || key@ == "ALL_PROXY"@ || key@ == "https_proxy"@ || key@
            == "http_proxy"@ || key@ == "all_proxy"@) ==> r,
        r ==> exists|k: String| #[trigger]
            env@.contains_key(k) && env@[k]@.len() > 0 && (k@ == "HTTPS_PROXY"@ || k@
                == "HTTP_PROXY"@ || k@ == "ALL_PROXY"@ || k@ == "https_proxy"@ || k@
                == "http_proxy"@ || k@ == "all_proxy"@),
{
}

/// The ports that are tried, in their order, and the address of a proxy at a port.
pub proof fn law_ports_are_tried_in_order(port: u16)
    ensures
        PROXY_AUTO_DETECT_PORTS@ == seq![7897u16, 7890u16, 10809u16, 10808u16, 1080u16],
        proxy_address(port) == "http://127.0.0.1:"@ + number::decimal(port as nat),
{
    assert(PROXY_AUTO_DETECT_PORTS@ =~= seq![7897u16, 7890u16, 10809u16, 10808u16, 1080u16]);
}

/// The proxy that is found is at the first port, in their order, at which a connection could be
/// made; none is found where it could be made at none of them.
pub proof fn law_first_open_port_is_found<F: Fn(u16) -> bool>(can_connect: F, r: Option<String>)
    requires
        call_ensures(detect_local_proxy_with::<F>, (can_connect,), r),
        forall|port: u16| !(call_ensures(can_connect, (port,), true) && call_ensures(
            can_connect,
            (port,),
            false,
        )),
    ensures
        call_ensures(can_connect, (7897u16,), true) ==> r is Some && r->0@ == "http://127.0.0.1:"@
            + number::decimal(7897),
        call_ensures(can_connect, (7897u16,), false) && call_ensures(can_connect, (7890u16,), true)
            ==> r is Some && r->0@ == "http://127.0.0.1:"@ + number::decimal(7890),
        r is None ==> call_ensures(can_connect, (7897u16,), false) && call_ensures(
            can_connect,
            (7890u16,),
            false,
        ) && call_ensures(can_connect, (10809u16,), false) && call_ensures(
            can_connect,
            (10808u16,),
            false,
        ) && call_ensures(can_connect, (1080u16,), false),
{
    let ports = PROXY_AUTO_DETECT_PORTS@;
    assert(ports[0] == 7897 && ports[1] == 7890 && ports[2] == 10809);
    assert(ports[3] == 10808 && ports[4] == 1080);
}

} // verus!
