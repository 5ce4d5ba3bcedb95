use vstd::prelude::*;
use vstd::string::*;

verus! {

/// Every way in which a provisioning run can stop. Each stage aborts the run
/// with the first error it meets.
#[derive(Debug)]
pub enum ProvisionError {
    /// The token endpoint could not be reached or gave no usable token.
    Auth(String),
    /// The catalog payload has no JSON prefix or it does not parse.
    CatalogParse(String),
    /// The tunnel protocol group is missing or lists no port.
    PortResolution,
    /// No region has the requested identifier, or it lists no tunnel server.
    RegionNotFound(String),
    /// The chosen region is offline.
    RegionOffline(String),
    /// The provider's root certificate could not be fetched.
    CertificateFetch(String),
    /// The pinned transport could not be built.
    TransportBuild(String),
    /// The exit server refused the key; holds the provider's message.
    KeyExchangeRejected(Option<String>),
    /// The key-exchange answer is malformed.
    ExitServerResponse(String),
    /// The configuration could not be written.
    Persistence(String),
}

/// The stage that failed, as shown to the user.
pub open spec fn stage_text(e: ProvisionError) -> Seq<char> {
    match e {
        ProvisionError::Auth(_) => "Failed to get token: "@,
        ProvisionError::CatalogParse(_) => "Failed to parse server list: "@,
        ProvisionError::PortResolution => "No WireGuard port in server list"@,
        ProvisionError::RegionNotFound(_) => "Failed to find region by ID: "@,
        ProvisionError::RegionOffline(_) => "Region is offline: "@,
        ProvisionError::CertificateFetch(_) => "Failed to fetch PIA certificate: "@,
        ProvisionError::TransportBuild(_) => "Failed to build pinned client: "@,
        ProvisionError::KeyExchangeRejected(_) => "Error creating private key: "@,
        ProvisionError::ExitServerResponse(_) => "Invalid answer from exit server: "@,
        ProvisionError::Persistence(_) => "Failed to save wireguard configuration: "@,
    }
}

/// What follows the stage: the underlying message, verbatim.
pub open spec fn detail_text(e: ProvisionError) -> Seq<char> {
    match e {
        ProvisionError::Auth(m) => m@,
        ProvisionError::CatalogParse(m) => m@,
        ProvisionError::PortResolution => Seq::empty(),
        ProvisionError::RegionNotFound(m) => m@,
        ProvisionError::RegionOffline(m) => m@,
        ProvisionError::CertificateFetch(m) => m@,
        ProvisionError::TransportBuild(m) => m@,
        ProvisionError::KeyExchangeRejected(Some(m)) => m@,
        ProvisionError::KeyExchangeRejected(None) => "no message"@,
        ProvisionError::ExitServerResponse(m) => m@,
        ProvisionError::Persistence(m) => m@,
    }
}

impl ProvisionError {
    /// A one-line description: the stage, then the underlying message.
    pub fn describe(&self) -> (r: String)
        ensures
            r@ == stage_text(*self) + detail_text(*self),
    {
        match self {
            ProvisionError::Auth(m) => String::from_str("Failed to get token: ").concat(m.as_str()),
            ProvisionError::CatalogParse(m) => String::from_str(
                "Failed to parse server list: ",
            ).concat(m.as_str()),
            ProvisionError::PortResolution => {
                let r = String::from_str("No WireGuard port in server list");
                assert(r@ =~= r@ + Seq::<char>::empty());
                r
            },
            ProvisionError::RegionNotFound(m) => String::from_str(
                "Failed to find region by ID: ",
            ).concat(m.as_str()),
            ProvisionError::RegionOffline(m) => String::from_str("Region is offline: ").concat(
                m.as_str(),
            ),
            ProvisionError::CertificateFetch(m) => String::from_str(
                "Failed to fetch PIA certificate: ",
            ).concat(m.as_str()),
            ProvisionError::TransportBuild(m) => String::from_str(
                "Failed to build pinned client: ",
            ).concat(m.as_str()),
            ProvisionError::KeyExchangeRejected(m) => {
                let head = String::from_str("Error creating private key: ");
                match m {
                    Some(text) => head.concat(text.as_str()),
                    None => head.concat("no message"),
                }
            },
            ProvisionError::ExitServerResponse(m) => String::from_str(
                "Invalid answer from exit server: ",
            ).concat(m.as_str()),
            ProvisionError::Persistence(m) => String::from_str(
                "Failed to save wireguard configuration: ",
            ).concat(m.as_str()),
        }
    }
}

/// A refused key registration is described with the provider's message
/// verbatim, after the stage.
pub proof fn lemma_rejection_shows_message(m: String)
    ensures
        stage_text(ProvisionError::KeyExchangeRejected(Some(m))) + detail_text(
            ProvisionError::KeyExchangeRejected(Some(m)),
        ) == "Error creating private key: "@ + m@,
{
}

} // verus!
