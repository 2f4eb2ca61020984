//! Where the server listens, and how it shows that it does.

use vstd::prelude::*;

verus! {

/// Seconds after which the uploads are looked through without a request.
pub const CLEANUP_DELAY_SECS: u64 = 60 * 60 * 7;

/// The address on which the server listens: all interfaces, on a given port or on 3000.
pub fn listen_address(port: Option<&str>) -> (address: String)
    ensures
        address@ == "0.0.0.0:"@ + match port {
            Some(port) => port@,
            None => "3000"@,
        },
{
    let mut address = String::new();
    address.append("0.0.0.0:");
    match port {
        Some(port) => address.append(port),
        None => address.append("3000"),
    }
    address
}

/// What the server says when it is asked whether it is well.
pub fn health() -> (answer: &'static str)
    ensures
        answer@ == "ok"@,
{
    "ok"
}

/// The server listens on the port that it is given, on all interfaces.
pub proof fn given_port_is_used(port: &str, address: String, default_address: String)
    requires
        call_ensures(listen_address, (Some(port),), address),
        call_ensures(listen_address, (None::<&str>,), default_address),
    ensures
        address@ == "0.0.0.0:"@ + port@,
        default_address@ == "0.0.0.0:"@ + "3000"@,
{
}

/// The uploads are looked through after seven hours without a request.
pub proof fn cleanup_comes_after_seven_hours()
    ensures
        CLEANUP_DELAY_SECS == 7 * 3600,
{
}

} // verus!
