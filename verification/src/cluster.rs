//! Settings of a challenge environment and of the cluster that runs it, and the
//! placement rules derived from them.
use vstd::prelude::*;
use std::collections::HashSet;
use crate::error::{precondition_failed, ResponseError};
use crate::text::{dec, push_str, u64_to_string};

verus! {

/// Namespace in which challenge environments run.
pub const CHALLENGE_NS: &'static str = "ret2shell-challenge";

/// One container image of a challenge environment.
pub struct ImageSpec {
    pub name: String,
    /// The service port the image exposes, if any.
    pub port: Option<u16>,
}

/// The online environment of a challenge (`env.toml`).
pub struct ChallengeEnv {
    pub internet: bool,
    pub restricted: bool,
    pub privileged: bool,
    pub images: Vec<ImageSpec>,
    pub pull_secret: Option<String>,
}

/// Cluster-wide settings.
pub struct ClusterSettings {
    pub node_selector: Option<String>,
    pub traffic: Option<String>,
    pub lifecycle: Option<String>,
}

/// The per-game settings that placement reads.
pub struct GameSettings {
    pub id: i64,
    pub name: String,
    pub bucket: Option<String>,
    pub node_selector: Option<String>,
    pub traffic: Option<String>,
    pub lifecycle: Option<String>,
}

pub open spec fn image_port(i: ImageSpec) -> Option<u16> {
    i.port
}

/// The exposed ports of the images, in order.
pub open spec fn ports_of(images: Seq<ImageSpec>) -> Seq<u16> {
    images.filter_map(|i: ImageSpec| i.port)
}

/// The first exposed port among the images.
pub open spec fn first_port(images: Seq<ImageSpec>) -> Option<u16>
    decreases images.len(),
{
    if images.len() == 0 {
        None
    } else if images[0].port is Some {
        images[0].port
    } else {
        first_port(images.drop_first())
    }
}

/// The first port is that of the earliest image exposing one; there is none exactly when
/// no image exposes a port.
pub proof fn lemma_first_port_is_earliest(images: Seq<ImageSpec>)
    ensures
        forall|k: int|
            0 <= k < images.len() && (#[trigger] images[k]).port is Some && (forall|j: int|
                0 <= j < k ==> (#[trigger] images[j]).port is None) ==> first_port(images) == images[k].port,
        first_port(images) is None <==> (forall|j: int| 0 <= j < images.len() ==> (#[trigger] images[j]).port is None),
    decreases images.len(),
{
    if images.len() > 0 {
        let rest = images.drop_first();
        lemma_first_port_is_earliest(rest);
        assert forall|k: int|
            0 <= k < images.len() && (#[trigger] images[k]).port is Some && (forall|j: int|
                0 <= j < k ==> (#[trigger] images[j]).port is None) implies first_port(images) == images[k].port by {
            if k > 0 {
                assert(images[0].port is None);
                assert(rest[k - 1] == images[k]);
                assert forall|j: int| 0 <= j < k - 1 implies (#[trigger] rest[j]).port is None by {
                    assert(rest[j] == images[j + 1]);
                }
            }
        }
        if forall|j: int| 0 <= j < images.len() ==> (#[trigger] images[j]).port is None {
            assert(images[0].port is None);
            assert forall|j: int| 0 <= j < rest.len() implies (#[trigger] rest[j]).port is None by {
                assert(rest[j] == images[j + 1]);
            }
        }
        if first_port(images) is None {
            assert(images[0].port is None);
            assert forall|j: int| 0 <= j < images.len() implies (#[trigger] images[j]).port is None by {
                if j > 0 {
                    assert(rest[j - 1] == images[j]);
                }
            }
        }
    }
}

/// The exposed ports of an environment's images, in order.
pub fn env_ports(env: &ChallengeEnv) -> (ports: Vec<u16>)
    ensures
        ports@ == ports_of(env.images@),
{
    let mut ports: Vec<u16> = Vec::new();
    let mut i: usize = 0;
    while i < env.images.len()
        invariant
            i <= env.images@.len(),
            ports@ == env.images@.take(i as int).filter_map(|x: ImageSpec| x.port),
        decreases env.images.len() - i,
    {
        proof {
            env.images@.lemma_filter_map_take_succ(|x: ImageSpec| x.port, i as int);
        }
        match env.images[i].port {
            Some(p) => ports.push(p),
            None => {},
        }
        i = i + 1;
    }
    proof {
        assert(env.images@.take(env.images@.len() as int) =~= env.images@);
    }
    ports
}

/// The first exposed port among `images`.
pub fn first_image_port(images: &Vec<ImageSpec>) -> (p: Option<u16>)
    ensures
        p == first_port(images@),
{
    let mut i: usize = 0;
    proof {
        assert(images@.skip(0) =~= images@);
    }
    while i < images.len()
        invariant
            i <= images@.len(),
            first_port(images@) == first_port(images@.skip(i as int)),
        decreases images.len() - i,
    {
        proof {
            assert(images@.skip(i as int).drop_first() =~= images@.skip(i + 1));
        }
        if images[i].port.is_some() {
            return images[i].port;
        }
        i = i + 1;
    }
    None
}

/// Whether some image exposes a service port.
pub fn has_service_port(env: &ChallengeEnv) -> (b: bool)
    ensures
        b == exists|i: int| 0 <= i < env.images@.len() && env.images@[i].port is Some,
{
    let mut i: usize = 0;
    while i < env.images.len()
        invariant
            i <= env.images@.len(),
            forall|k: int| 0 <= k < i ==> env.images@[k].port is None,
        decreases env.images.len() - i,
    {
        if env.images[i].port.is_some() {
            return true;
        }
        i = i + 1;
    }
    false
}

/// Refusal of an environment that exposes no service port.
pub fn require_service_port(env: &ChallengeEnv, message: &str) -> (r: Result<(), ResponseError>)
    ensures
        r is Ok <==> exists|i: int| 0 <= i < env.images@.len() && env.images@[i].port is Some,
        r matches Err(e) ==> e matches ResponseError::PreconditionFailed(m) && m@ == message@,
{
    if has_service_port(env) {
        Ok(())
    } else {
        Err(precondition_failed(message))
    }
}

/// Whether two images expose the same port.
pub open spec fn has_port_conflict(images: Seq<ImageSpec>) -> bool {
    exists|i: int, j: int|
        0 <= i < j < images.len() && images[i].port is Some && images[i].port == images[j].port
}

/// Detects two images that expose the same port.
pub fn port_conflict(env: &ChallengeEnv) -> (b: bool)
    ensures
        b == has_port_conflict(env.images@),
{
    broadcast use vstd::std_specs::hash::group_hash_axioms;

    let n = env.images.len();
    let mut ports: HashSet<u16> = HashSet::new();
    let mut j: usize = 0;
    while j < n
        invariant
            n == env.images@.len(),
            j <= n,
            forall|p: u16|
                #[trigger] ports@.contains(p) <==> exists|a: int|
                    0 <= a < j && #[trigger] env.images@[a].port == Some(p),
            forall|a: int, b: int|
                0 <= a < b < j ==> !(env.images@[a].port is Some && env.images@[a].port
                    == env.images@[b].port),
        decreases n - j,
    {
        let ghost before = ports@;
        match env.images[j].port {
            Some(p) => {
                if !ports.insert(p) {
                    proof {
                        let a = choose|a: int| 0 <= a < j && #[trigger] env.images@[a].port == Some(p);
                        assert(env.images@[a].port is Some && env.images@[a].port == env.images@[j as int].port);
                    }
                    return true;
                }
                proof {
                    assert forall|q: u16|
                        #[trigger] ports@.contains(q) <==> exists|a: int|
                            0 <= a < j + 1 && #[trigger] env.images@[a].port == Some(q) by {
                        if q == p {
                            assert(env.images@[j as int].port == Some(q));
                        } else if exists|a: int| 0 <= a < j + 1 && #[trigger] env.images@[a].port == Some(q) {
                            let a = choose|a: int| 0 <= a < j + 1 && #[trigger] env.images@[a].port == Some(q);
                            assert(a < j);
                        }
                    }
                    assert forall|a: int, b: int|
                        0 <= a < b < j + 1 implies !(env.images@[a].port is Some && env.images@[a].port
                            == env.images@[b].port) by {
                        if b == j && env.images@[a].port == Some(p) {
                            assert(before.contains(p));
                        }
                    }
                }
            },
            None => {
                proof {
                    assert forall|q: u16|
                        #[trigger] ports@.contains(q) <==> exists|a: int|
                            0 <= a < j + 1 && #[trigger] env.images@[a].port == Some(q) by {
                        if exists|a: int| 0 <= a < j + 1 && #[trigger] env.images@[a].port == Some(q) {
                            let a = choose|a: int| 0 <= a < j + 1 && #[trigger] env.images@[a].port == Some(q);
                            assert(a < j);
                        }
                    }
                }
            },
        }
        j = j + 1;
    }
    false
}

/// The comma-separated list of exposed ports, as recorded on an environment.
pub open spec fn ports_label(ports: Seq<u16>) -> Seq<char>
    decreases ports.len(),
{
    if ports.len() == 0 {
        Seq::empty()
    } else if ports.len() == 1 {
        dec(ports[0] as nat)
    } else {
        ports_label(ports.drop_last()) + seq![','] + dec(ports.last() as nat)
    }
}

/// Joins the exposed ports of an environment with commas.
pub fn env_ports_label(env: &ChallengeEnv) -> (s: String)
    ensures
        s@ == ports_label(ports_of(env.images@)),
{
    let ports = env_ports(env);
    let mut s = String::new();
    let mut i: usize = 0;
    while i < ports.len()
        invariant
            i <= ports@.len(),
            s@ == ports_label(ports@.take(i as int)),
        decreases ports.len() - i,
    {
        proof {
            assert(ports@.take(i + 1).drop_last() =~= ports@.take(i as int));
        }
        if i > 0 {
            s.push(',');
        }
        let d = u64_to_string(ports[i] as u64);
        push_str(&mut s, d.as_str());
        proof {
            if i == 0 {
                assert(s@ =~= dec(ports@[0] as nat));
            }
        }
        i = i + 1;
    }
    proof {
        assert(ports@.take(ports@.len() as int) =~= ports@);
    }
    s
}

/// The node selector an environment of `game` is scheduled with: while the game is
/// live its own selector takes precedence over the cluster's; an empty selector counts
/// as none; without cluster settings there is none.
pub open spec fn node_selector_spec(
    game_selector: Option<Seq<char>>,
    cluster: Option<Option<Seq<char>>>,
    live: bool,
) -> Option<Seq<char>> {
    match cluster {
        None => None,
        Some(cluster_selector) => {
            let chosen = if live && game_selector is Some {
                game_selector
            } else {
                cluster_selector
            };
            match chosen {
                Some(s) => if s.len() == 0 {
                    None
                } else {
                    Some(s)
                },
                None => None,
            }
        },
    }
}

pub open spec fn opt_view(o: Option<String>) -> Option<Seq<char>> {
    match o {
        Some(s) => Some(s@),
        None => None,
    }
}

pub open spec fn cluster_selector_view(c: Option<&ClusterSettings>) -> Option<Option<Seq<char>>> {
    match c {
        Some(c) => Some(opt_view(c.node_selector)),
        None => None,
    }
}

/// The node selector for environments of `game`; `live` is whether the game is not yet
/// archived.
pub fn node_selector(game: &GameSettings, cluster: Option<&ClusterSettings>, live: bool) -> (r:
    Option<String>)
    ensures
        opt_view(r) == node_selector_spec(
            opt_view(game.node_selector),
            cluster_selector_view(cluster),
            live,
        ),
{
    let cluster = match cluster {
        Some(c) => c,
        None => return None,
    };
    let chosen = if live && game.node_selector.is_some() {
        game.node_selector.clone()
    } else {
        cluster.node_selector.clone()
    };
    match chosen {
        Some(s) => {
            if s.as_str().is_empty() {
                None
            } else {
                Some(s)
            }
        },
        None => None,
    }
}

/// Whether environments of `game` have their ports exposed through a traffic script.
pub open spec fn need_expose_spec(
    game_traffic: bool,
    cluster: Option<bool>,
    live: bool,
) -> bool {
    match cluster {
        None => false,
        Some(cluster_traffic) => (live && game_traffic) || cluster_traffic,
    }
}

pub fn need_expose(game: &GameSettings, cluster: Option<&ClusterSettings>, live: bool) -> (b: bool)
    ensures
        b == need_expose_spec(
            game.traffic is Some,
            match cluster {
                Some(c) => Some(c.traffic is Some),
                None => None,
            },
            live,
        ),
{
    match cluster {
        None => false,
        Some(c) => (live && game.traffic.is_some()) || c.traffic.is_some(),
    }
}

/// The traffic script that exposes environments of `game`, with the key it is cached
/// under: the game's own script (keyed by its bucket) while the game is live and has
/// one, else the cluster's (keyed `default`).
pub fn traffic_script(game: &GameSettings, cluster: Option<&ClusterSettings>, live: bool) -> (r:
    Result<(String, Option<String>), ResponseError>)
    ensures
        cluster is None ==> (r matches Err(ResponseError::PreconditionFailed(m)) && m@
            == "cluster is disabled"@),
        cluster matches Some(c) ==> {
            if live && game.traffic is Some {
                match game.bucket {
                    Some(b) => r matches Ok((k, t)) && k@ == b@ && t == game.traffic,
                    None => r matches Err(ResponseError::PreconditionFailed(m)) && m@
                        == "game bucket not found"@,
                }
            } else {
                r matches Ok((k, t)) && k@ == "default"@ && t == c.traffic
            }
        },
{
    let cluster = match cluster {
        Some(c) => c,
        None => return Err(precondition_failed("cluster is disabled")),
    };
    if live && game.traffic.is_some() {
        match &game.bucket {
            Some(b) => Ok((b.clone(), game.traffic.clone())),
            None => Err(precondition_failed("game bucket not found")),
        }
    } else {
        Ok(("default".to_owned(), cluster.traffic.clone()))
    }
}

} // verus!
