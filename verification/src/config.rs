//! The service catalog: named launch recipes kept in a configuration file.
//!
//! Each entry holds a unique service name, a declared port (informational
//! only) and the full launch command line, whitespace-split at invocation.
//! The catalog is viewed as a sequence of (name, port, command line)
//! triples; a hard-coded default catalog stands in whenever no file exists.

use vstd::prelude::*;

verus! {

/// One catalog entry: a named launch recipe.
pub struct Ots {
    pub name: String,
    pub port: u32,
    pub command_line: String,
}

/// The catalog of services.
pub struct DkConfig {
    pub ots: Vec<Ots>,
}

/// The view of one entry: name, port and command line.
pub open spec fn ots_view(o: Ots) -> (Seq<char>, u32, Seq<char>) {
    (o.name@, o.port, o.command_line@)
}

/// The view of the whole catalog, entry order kept.
pub open spec fn catalog_view(c: DkConfig) -> Seq<(Seq<char>, u32, Seq<char>)> {
    c.ots@.map_values(|o: Ots| ots_view(o))
}

/// The hard-coded default catalog.
pub open spec fn spec_default_catalog() -> Seq<(Seq<char>, u32, Seq<char>)> {
    seq![
        (
            "portainer"@,
            25003u32,
            "docker run -d --name ots_portainer -p 9000:9000 -p 25003:9443 -v /var/run/docker.sock:/var/run/docker.sock -v portainer_data:/data --restart unless-stopped portainer/portainer-ce:latest"@,
        ),
        (
            "sqlserver"@,
            1433u32,
            "docker run -d --name ots_sqlserver -v sqlserver_data:/var/opt/mssql -p 1433:1433 -e ACCEPT_EULA=Y -e SA_PASSWORD=Sh@dokN0tD\u{20ac}ad! --restart unless-stopped mcr.microsoft.com/mssql/server:2022-latest"@,
        ),
        (
            "kroki"@,
            25100u32,
            "docker run -d --name ots_kroki -p 25100:8000 --restart unless-stopped yuzutech/kroki"@,
        ),
        (
            "excalidraw"@,
            25101u32,
            "docker run -d --name ots_excalidraw -p 25000:80 --restart unless-stopped excalidraw/excalidraw"@,
        ),
        (
            "rabbitmq"@,
            25101u32,
            "docker run -d --name ots_rabbitmq -p 15672:15672 -p 5672:5672 --mount type=volume,src=ots_rabbitmq,dst=/var/lib/rabbitmq\n --restart unless-stopped rabbitmq:4.1.0-management"@,
        ),
    ]
}

/// Build the hard-coded default catalog.
pub fn default_catalog() -> (r: DkConfig)
    ensures
        catalog_view(r) == spec_default_catalog(),
{
    let mut ots: Vec<Ots> = Vec::new();
    ots.push(
        Ots {
            name: String::from_str("portainer"),
            port: 25003,
            command_line: String::from_str(
                "docker run -d --name ots_portainer -p 9000:9000 -p 25003:9443 -v /var/run/docker.sock:/var/run/docker.sock -v portainer_data:/data --restart unless-stopped portainer/portainer-ce:latest",
            ),
        },
    );
    ots.push(
        Ots {
            name: String::from_str("sqlserver"),
            port: 1433,
            command_line: String::from_str(
                "docker run -d --name ots_sqlserver -v sqlserver_data:/var/opt/mssql -p 1433:1433 -e ACCEPT_EULA=Y -e SA_PASSWORD=Sh@dokN0tD\u{20ac}ad! --restart unless-stopped mcr.microsoft.com/mssql/server:2022-latest",
            ),
        },
    );
    ots.push(
        Ots {
            name: String::from_str("kroki"),
            port: 25100,
            command_line: String::from_str(
                "docker run -d --name ots_kroki -p 25100:8000 --restart unless-stopped yuzutech/kroki",
            ),
        },
    );
    ots.push(
        Ots {
            name: String::from_str("excalidraw"),
            port: 25101,
            command_line: String::from_str(
                "docker run -d --name ots_excalidraw -p 25000:80 --restart unless-stopped excalidraw/excalidraw",
            ),
        },
    );
    ots.push(
        Ots {
            name: String::from_str("rabbitmq"),
            port: 25101,
            command_line: String::from_str(
                "docker run -d --name ots_rabbitmq -p 15672:15672 -p 5672:5672 --mount type=volume,src=ots_rabbitmq,dst=/var/lib/rabbitmq\n --restart unless-stopped rabbitmq:4.1.0-management",
            ),
        },
    );
    let r = DkConfig { ots };
    proof {
        assert(catalog_view(r) =~= spec_default_catalog());
    }
    r
}

/// The loaded catalog where a file could be read, else the default.
pub fn catalog_or_default(loaded: Option<DkConfig>) -> (r: DkConfig)
    ensures
        match loaded {
            Some(c) => r == c,
            None => catalog_view(r) == spec_default_catalog(),
        },
{
    match loaded {
        Some(c) => c,
        None => default_catalog(),
    }
}

/// True when the two catalogs agree entry for entry, field for field.
pub fn catalog_eq(a: &DkConfig, b: &DkConfig) -> (r: bool)
    ensures
        r == (catalog_view(*a) == catalog_view(*b)),
{
    if a.ots.len() != b.ots.len() {
        proof {
            assert(catalog_view(*a).len() != catalog_view(*b).len());
        }
        return false;
    }
    let mut i: usize = 0;
    while i < a.ots.len()
        invariant
            0 <= i <= a.ots@.len(),
            a.ots@.len() == b.ots@.len(),
            forall|j: int| 0 <= j < i ==> catalog_view(*a)[j] == catalog_view(*b)[j],
        decreases a.ots@.len() - i,
    {
        let x = &a.ots[i];
        let y = &b.ots[i];
        let same = x.port == y.port && x.name == y.name && x.command_line == y.command_line;
        if !same {
            proof {
                assert(catalog_view(*a)[i as int] == ots_view(a.ots@[i as int]));
                assert(catalog_view(*b)[i as int] == ots_view(b.ots@[i as int]));
            }
            return false;
        }
        proof {
            assert(catalog_view(*a)[i as int] == ots_view(a.ots@[i as int]));
            assert(catalog_view(*b)[i as int] == ots_view(b.ots@[i as int]));
        }
        i += 1;
    }
    proof {
        assert(catalog_view(*a) =~= catalog_view(*b));
    }
    true
}

} // verus!
