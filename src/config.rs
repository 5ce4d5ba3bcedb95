use vstd::prelude::*;
use vstd::string::*;
use crate::error::ProvisionError;
use crate::keys::{base64_text, decode_key, encode_key, parsed_key, Keypair};
use crate::net::{endpoint_text, ip_text, push_endpoint, push_ip, Endpoint, IpAddress};
use crate::text::{
    join, lemma_join_avoids, lemma_split_join, lemma_strip_prefix, push_joined, split,
    strip_prefix, text_eq, views,
};

verus! {

/// The exit server's answer to a key registration.
#[derive(Debug)]
pub struct KeyStatus {
    pub status: String,
    pub server_key: String,
    pub server_port: i32,
    pub server_ip: IpAddress,
    pub server_vip: String,
    pub peer_ip: IpAddress,
    pub dns_servers: Vec<String>,
    pub message: Option<String>,
}

/// The parameters of a WireGuard tunnel.
#[derive(Debug)]
pub struct Config {
    pub private_key: [u8; 32],
    pub address: IpAddress,
    pub dns: Vec<String>,
    pub public_key: [u8; 32],
    pub allowed_ips: String,
    pub endpoint: Endpoint,
    pub api: String,
}

/// The status marker of an accepted key.
pub open spec fn status_ok() -> Seq<char> {
    seq!['O', 'K']
}

/// The allowed-IPs policy: route everything through the tunnel.
pub open spec fn route_all() -> Seq<char> {
    seq!['0', '.', '0', '.', '0', '.', '0', '/', '0']
}

/// The text fields of a configuration: private key, address, DNS servers,
/// peer public key, allowed IPs and endpoint.
pub type ConfigFields = (Seq<char>, Seq<char>, Seq<Seq<char>>, Seq<char>, Seq<char>, Seq<char>);

/// The text fields that a configuration is written with.
pub open spec fn fields_of(c: Config) -> ConfigFields {
    (
        base64_text(c.private_key@),
        ip_text(c.address),
        views(c.dns@),
        base64_text(c.public_key@),
        c.allowed_ips@,
        endpoint_text(c.endpoint),
    )
}

/// The lines of the configuration file.
pub open spec fn config_lines(f: ConfigFields) -> Seq<Seq<char>> {
    seq![
        "[Interface]"@,
        "PrivateKey = "@ + f.0,
        "Address = "@ + f.1,
        "DNS = "@ + join(f.2, seq![',']),
        Seq::empty(),
        "[Peer]"@,
        "PublicKey = "@ + f.3,
        "AllowedIPs = "@ + f.4,
        "Endpoint = "@ + f.5,
        "PersistentKeepalive = 25"@,
    ]
}

/// The file text for given fields: its lines, separated by newlines.
pub open spec fn fields_text(f: ConfigFields) -> Seq<char> {
    join(config_lines(f), seq!['\n'])
}

/// The configuration file text.
pub open spec fn config_text(c: Config) -> Seq<char> {
    fields_text(fields_of(c))
}

/// Reads the fields back from a configuration file text, if it has the shape
/// that rendering gives.
pub open spec fn parse_config(text: Seq<char>) -> Option<ConfigFields> {
    let ls = split(text, '\n');
    if ls.len() == 10 && ls[0] == "[Interface]"@ && ls[4] == Seq::<char>::empty() && ls[5]
        == "[Peer]"@ && ls[9] == "PersistentKeepalive = 25"@ && strip_prefix(
        ls[1],
        "PrivateKey = "@,
    ) is Some && strip_prefix(ls[2], "Address = "@) is Some && strip_prefix(ls[3], "DNS = "@) is Some
        && strip_prefix(ls[6], "PublicKey = "@) is Some && strip_prefix(
        ls[7],
        "AllowedIPs = "@,
    ) is Some && strip_prefix(ls[8], "Endpoint = "@) is Some {
        Some(
            (
                strip_prefix(ls[1], "PrivateKey = "@)->0,
                strip_prefix(ls[2], "Address = "@)->0,
                split(strip_prefix(ls[3], "DNS = "@)->0, ','),
                strip_prefix(ls[6], "PublicKey = "@)->0,
                strip_prefix(ls[7], "AllowedIPs = "@)->0,
                strip_prefix(ls[8], "Endpoint = "@)->0,
            ),
        )
    } else {
        None
    }
}

proof fn lemma_concat_avoids(a: Seq<char>, b: Seq<char>, c: char)
    requires
        !a.contains(c),
        !b.contains(c),
    ensures
        !(a + b).contains(c),
{
    assert forall|j: int| 0 <= j < (a + b).len() implies (a + b)[j] != c by {
        if j >= a.len() {
            assert((a + b)[j] == b[j - a.len()]);
        } else {
            assert((a + b)[j] == a[j]);
        }
    }
}

/// Re-reading a written configuration gives back exactly the fields it was
/// written with, when no field holds a newline, no DNS entry holds a comma,
/// and there is at least one DNS entry.
pub proof fn lemma_config_round_trip(f: ConfigFields)
    requires
        !f.0.contains('\n'),
        !f.1.contains('\n'),
        !f.3.contains('\n'),
        !f.4.contains('\n'),
        !f.5.contains('\n'),
        f.2.len() > 0,
        forall|k: int| 0 <= k < f.2.len() ==> !f.2[k].contains('\n') && !f.2[k].contains(','),
    ensures
        parse_config(fields_text(f)) == Some(f),
{
    reveal_strlit("[Interface]");
    reveal_strlit("PrivateKey = ");
    reveal_strlit("Address = ");
    reveal_strlit("DNS = ");
    reveal_strlit("[Peer]");
    reveal_strlit("PublicKey = ");
    reveal_strlit("AllowedIPs = ");
    reveal_strlit("Endpoint = ");
    reveal_strlit("PersistentKeepalive = 25");
    let ls = config_lines(f);
    let dns = join(f.2, seq![',']);
    lemma_join_avoids(f.2, ',', '\n');
    lemma_concat_avoids("PrivateKey = "@, f.0, '\n');
    lemma_concat_avoids("Address = "@, f.1, '\n');
    lemma_concat_avoids("DNS = "@, dns, '\n');
    lemma_concat_avoids("PublicKey = "@, f.3, '\n');
    lemma_concat_avoids("AllowedIPs = "@, f.4, '\n');
    lemma_concat_avoids("Endpoint = "@, f.5, '\n');
    assert forall|k: int| 0 <= k < ls.len() implies !ls[k].contains('\n') by {
        if k == 0 || k == 4 || k == 5 || k == 9 {
            assert(!ls[k].contains('\n'));
        }
    }
    lemma_split_join(ls, '\n');
    lemma_strip_prefix("PrivateKey = "@, f.0);
    lemma_strip_prefix("Address = "@, f.1);
    lemma_strip_prefix("DNS = "@, dns);
    lemma_strip_prefix("PublicKey = "@, f.3);
    lemma_strip_prefix("AllowedIPs = "@, f.4);
    lemma_strip_prefix("Endpoint = "@, f.5);
    lemma_split_join(f.2, ',');
}

proof fn lemma_join_step(ls: Seq<Seq<char>>, k: int, sep: Seq<char>)
    requires
        1 <= k < ls.len(),
    ensures
        join(ls.take(k + 1), sep) == join(ls.take(k), sep) + sep + ls[k],
{
    assert(ls.take(k + 1).drop_last() =~= ls.take(k));
}

impl Config {
    /// Builds the tunnel from the local key pair and the exit server's answer.
    /// A status other than `OK` is a refusal that carries the server's message;
    /// a server key that does not decode, or a port that is not one, is a
    /// malformed answer.
    pub fn new(keys: Keypair, key_data: KeyStatus) -> (r: Result<Config, ProvisionError>)
        ensures
            key_data.status@ != status_ok() ==> match r {
                Err(ProvisionError::KeyExchangeRejected(m)) => m == key_data.message,
                _ => false,
            },
            key_data.status@ == status_ok() ==> match parsed_key(key_data.server_key@) {
                None => r matches Err(ProvisionError::ExitServerResponse(_)),
                Some(k) => if 0 <= key_data.server_port <= 65535 {
                    match r {
                        Ok(c) => {
                            &&& c.private_key == keys.private
                            &&& c.address == key_data.peer_ip
                            &&& c.dns == key_data.dns_servers
                            &&& c.public_key@ == k
                            &&& c.allowed_ips@ == route_all()
                            &&& c.endpoint == (Endpoint {
                                ip: key_data.server_ip,
                                port: key_data.server_port as u16,
                            })
                            &&& c.api == key_data.server_vip
                        },
                        Err(_) => false,
                    }
                } else {
                    r matches Err(ProvisionError::ExitServerResponse(_))
                },
            },
    {
        proof {
            reveal_strlit("OK");
            reveal_strlit("0.0.0.0/0");
        }
        assert("OK"@ =~= status_ok());
        if !text_eq(key_data.status.as_str(), "OK") {
            return Err(ProvisionError::KeyExchangeRejected(key_data.message));
        }
        let public_key = match decode_key(key_data.server_key.as_str()) {
            Some(k) => k,
            None => {
                return Err(
                    ProvisionError::ExitServerResponse(String::from_str("invalid server key")),
                );
            },
        };
        if key_data.server_port < 0 || key_data.server_port > 65535 {
            return Err(ProvisionError::ExitServerResponse(String::from_str("invalid server port")));
        }
        let allowed_ips = String::from_str("0.0.0.0/0");
        assert(allowed_ips@ =~= route_all());
        Ok(Config {
            private_key: keys.private,
            address: key_data.peer_ip,
            dns: key_data.dns_servers,
            public_key,
            allowed_ips,
            endpoint: Endpoint { ip: key_data.server_ip, port: key_data.server_port as u16 },
            api: key_data.server_vip,
        })
    }

    /// The configuration file text: an interface block and a peer block.
    pub fn render(&self) -> (r: String)
        ensures
            r@ == config_text(*self),
    {
        let ghost f = fields_of(*self);
        let ghost ls = config_lines(f);
        proof {
            reveal_strlit("\n");
            reveal_strlit(",");
            assert(","@ =~= seq![',']);
            assert(""@ =~= Seq::<char>::empty()) by {
                reveal_strlit("");
            }
        }
        let mut out = String::from_str("[Interface]");
        assert(ls.take(1) =~= seq![ls[0]]);
        let ghost start = out@;
        out.append("\n");
        out.append("PrivateKey = ");
        out.append(encode_key(&self.private_key).as_str());
        proof {
            lemma_join_step(ls, 1, seq!['\n']);
            assert(out@ =~= start + seq!['\n'] + ls[1]);
        }
        let ghost start = out@;
        out.append("\n");
        out.append("Address = ");
        push_ip(&mut out, &self.address);
        proof {
            lemma_join_step(ls, 2, seq!['\n']);
            assert(out@ =~= start + seq!['\n'] + ls[2]);
        }
        let ghost start = out@;
        out.append("\n");
        out.append("DNS = ");
        push_joined(&mut out, &self.dns, ",");
        proof {
            lemma_join_step(ls, 3, seq!['\n']);
            assert(out@ =~= start + seq!['\n'] + ls[3]);
        }
        let ghost start = out@;
        out.append("\n");
        out.append("");
        proof {
            lemma_join_step(ls, 4, seq!['\n']);
            assert(out@ =~= start + seq!['\n'] + ls[4]);
        }
        let ghost start = out@;
        out.append("\n");
        out.append("[Peer]");
        proof {
            lemma_join_step(ls, 5, seq!['\n']);
            assert(out@ =~= start + seq!['\n'] + ls[5]);
        }
        let ghost start = out@;
        out.append("\n");
        out.append("PublicKey = ");
        out.append(encode_key(&self.public_key).as_str());
        proof {
            lemma_join_step(ls, 6, seq!['\n']);
            assert(out@ =~= start + seq!['\n'] + ls[6]);
        }
        let ghost start = out@;
        out.append("\n");
        out.append("AllowedIPs = ");
        out.append(self.allowed_ips.as_str());
        proof {
            lemma_join_step(ls, 7, seq!['\n']);
            assert(out@ =~= start + seq!['\n'] + ls[7]);
        }
        let ghost start = out@;
        out.append("\n");
        out.append("Endpoint = ");
        push_endpoint(&mut out, &self.endpoint);
        proof {
            lemma_join_step(ls, 8, seq!['\n']);
            assert(out@ =~= start + seq!['\n'] + ls[8]);
        }
        let ghost start = out@;
        out.append("\n");
        out.append("PersistentKeepalive = 25");
        proof {
            lemma_join_step(ls, 9, seq!['\n']);
            assert(out@ =~= start + seq!['\n'] + ls[9]);
        }
        assert(ls.take(10) =~= ls);
        out
    }
}

/// The file name under which a region's configuration is kept.
pub fn config_file_name(region_id: &str) -> (r: String)
    ensures
        r@ == "./wg-"@ + region_id@ + ".conf"@,
{
    let mut out = String::from_str("./wg-");
    out.append(region_id);
    out.append(".conf");
    out
}

} // verus!
