//! The defaults store: the built-in catalog of well-known service ports.
//!
//! The persisted defaults store is regenerable: resetting or syncing simply
//! rewrites it from the catalog below at the catalog's current version, so a
//! user's own store and ignore list are never touched by either operation.
//! The caller persists what these functions return.

use vstd::prelude::*;

use crate::config::MappingView;
use crate::config::PortMapping;
use crate::port_spec::PortSpec;

verus! {

/// The revision of the built-in catalog.
pub const DEFAULTS_VERSION: u32 = 1;

/// The defaults store: a catalog revision and its mappings.
pub struct DefaultsConfig {
    pub version: u32,
    pub ports: Vec<PortMapping>,
}

/// The built-in catalog, entry by entry.
pub open spec fn catalog() -> Seq<MappingView> {
    seq![
        (MappingView {
            name: "postgres"@,
            port: PortSpec::Single(5432),
            description: Some("PostgreSQL database"@),
        }),
        (MappingView {
            name: "mysql"@,
            port: PortSpec::Single(3306),
            description: Some("MySQL database"@),
        }),
        (MappingView {
            name: "mongodb"@,
            port: PortSpec::Single(27017),
            description: Some("MongoDB database"@),
        }),
        (MappingView {
            name: "redis"@,
            port: PortSpec::Single(6379),
            description: Some("Redis cache"@),
        }),
        (MappingView {
            name: "elasticsearch"@,
            port: PortSpec::Single(9200),
            description: Some("Elasticsearch search engine"@),
        }),
        (MappingView {
            name: "cassandra"@,
            port: PortSpec::Single(9042),
            description: Some("Apache Cassandra database"@),
        }),
        (MappingView {
            name: "couchdb"@,
            port: PortSpec::Single(5984),
            description: Some("Apache CouchDB database"@),
        }),
        (MappingView {
            name: "influxdb"@,
            port: PortSpec::Single(8086),
            description: Some("InfluxDB time-series database"@),
        }),
        (MappingView {
            name: "neo4j"@,
            port: PortSpec::Single(7687),
            description: Some("Neo4j graph database"@),
        }),
        (MappingView {
            name: "clickhouse"@,
            port: PortSpec::Single(9000),
            description: Some("ClickHouse analytics database"@),
        }),
        (MappingView {
            name: "rabbitmq"@,
            port: PortSpec::Single(5672),
            description: Some("RabbitMQ message broker"@),
        }),
        (MappingView {
            name: "kafka"@,
            port: PortSpec::Single(9092),
            description: Some("Apache Kafka message broker"@),
        }),
        (MappingView {
            name: "zookeeper"@,
            port: PortSpec::Single(2181),
            description: Some("Apache ZooKeeper coordination service"@),
        }),
        (MappingView {
            name: "memcached"@,
            port: PortSpec::Single(11211),
            description: Some("Memcached cache"@),
        }),
        (MappingView {
            name: "prometheus"@,
            port: PortSpec::Single(9090),
            description: Some("Prometheus monitoring"@),
        }),
        (MappingView {
            name: "grafana"@,
            port: PortSpec::Single(3000),
            description: Some("Grafana dashboard"@),
        }),
        (MappingView {
            name: "docker"@,
            port: PortSpec::Single(2375),
            description: Some("Docker daemon"@),
        }),
        (MappingView {
            name: "etcd"@,
            port: PortSpec::Single(2379),
            description: Some("etcd distributed key-value store"@),
        }),
        (MappingView {
            name: "consul"@,
            port: PortSpec::Single(8500),
            description: Some("Consul service mesh"@),
        }),
        (MappingView {
            name: "vault"@,
            port: PortSpec::Single(8200),
            description: Some("HashiCorp Vault secrets management"@),
        }),
        (MappingView {
            name: "jenkins"@,
            port: PortSpec::Single(8080),
            description: Some("Jenkins CI/CD"@),
        }),
        (MappingView {
            name: "sonarqube"@,
            port: PortSpec::Single(9000),
            description: Some("SonarQube code quality"@),
        }),
        (MappingView {
            name: "minio"@,
            port: PortSpec::Single(9000),
            description: Some("MinIO object storage"@),
        }),
        (MappingView {
            name: "http"@,
            port: PortSpec::Single(80),
            description: Some("HTTP web server"@),
        }),
        (MappingView {
            name: "https"@,
            port: PortSpec::Single(443),
            description: Some("HTTPS web server"@),
        }),
        (MappingView { name: "ssh"@, port: PortSpec::Single(22), description: Some("SSH server"@) }),
        (MappingView { name: "ftp"@, port: PortSpec::Single(21), description: Some("FTP server"@) }),
        (MappingView {
            name: "smtp"@,
            port: PortSpec::Single(25),
            description: Some("SMTP mail server"@),
        }),
        (MappingView { name: "dns"@, port: PortSpec::Single(53), description: Some("DNS server"@) }),
    ]
}

/// A store that carries exactly the catalog's entries, in catalog order.
pub open spec fn is_catalog_store(d: DefaultsConfig) -> bool {
    &&& d.version == DEFAULTS_VERSION
    &&& d.ports@.len() == catalog().len()
    &&& forall|i: int| 0 <= i < d.ports@.len() ==> #[trigger] d.ports@[i]@ == catalog()[i]
}

/// The entry-count change that overwriting a store of `old_count` entries
/// with the catalog reports.
pub open spec fn spec_sync_delta(old_count: nat) -> int {
    catalog().len() - old_count
}

fn catalog_entry(name: &str, port: u16, description: &str) -> (m: PortMapping)
    ensures
        m@.name == name@,
        m@.port == PortSpec::Single(port),
        m@.description == Some(description@),
{
    PortMapping {
        name: name.to_owned(),
        port: PortSpec::Single(port),
        description: Some(description.to_owned()),
    }
}

impl DefaultsConfig {
    /// Builds the built-in catalog at its current version.
    pub fn create_defaults() -> (d: DefaultsConfig)
        ensures
            is_catalog_store(d),
    {
        let mut ports: Vec<PortMapping> = Vec::new();
        ports.push(catalog_entry("postgres", 5432, "PostgreSQL database"));
        ports.push(catalog_entry("mysql", 3306, "MySQL database"));
        ports.push(catalog_entry("mongodb", 27017, "MongoDB database"));
        ports.push(catalog_entry("redis", 6379, "Redis cache"));
        ports.push(catalog_entry("elasticsearch", 9200, "Elasticsearch search engine"));
        ports.push(catalog_entry("cassandra", 9042, "Apache Cassandra database"));
        ports.push(catalog_entry("couchdb", 5984, "Apache CouchDB database"));
        ports.push(catalog_entry("influxdb", 8086, "InfluxDB time-series database"));
        ports.push(catalog_entry("neo4j", 7687, "Neo4j graph database"));
        ports.push(catalog_entry("clickhouse", 9000, "ClickHouse analytics database"));
        ports.push(catalog_entry("rabbitmq", 5672, "RabbitMQ message broker"));
        ports.push(catalog_entry("kafka", 9092, "Apache Kafka message broker"));
        ports.push(catalog_entry("zookeeper", 2181, "Apache ZooKeeper coordination service"));
        ports.push(catalog_entry("memcached", 11211, "Memcached cache"));
        ports.push(catalog_entry("prometheus", 9090, "Prometheus monitoring"));
        ports.push(catalog_entry("grafana", 3000, "Grafana dashboard"));
        ports.push(catalog_entry("docker", 2375, "Docker daemon"));
        ports.push(catalog_entry("etcd", 2379, "etcd distributed key-value store"));
        ports.push(catalog_entry("consul", 8500, "Consul service mesh"));
        ports.push(catalog_entry("vault", 8200, "HashiCorp Vault secrets management"));
        ports.push(catalog_entry("jenkins", 8080, "Jenkins CI/CD"));
        ports.push(catalog_entry("sonarqube", 9000, "SonarQube code quality"));
        ports.push(catalog_entry("minio", 9000, "MinIO object storage"));
        ports.push(catalog_entry("http", 80, "HTTP web server"));
        ports.push(catalog_entry("https", 443, "HTTPS web server"));
        ports.push(catalog_entry("ssh", 22, "SSH server"));
        ports.push(catalog_entry("ftp", 21, "FTP server"));
        ports.push(catalog_entry("smtp", 25, "SMTP mail server"));
        ports.push(catalog_entry("dns", 53, "DNS server"));
        DefaultsConfig { version: DEFAULTS_VERSION, ports }
    }

    /// The store that a reset writes: the catalog, regenerated from scratch.
    /// The caller persists it in place of whatever was on disk.
    pub fn reset() -> (d: DefaultsConfig)
        ensures
            is_catalog_store(d),
    {
        Self::create_defaults()
    }

    /// The store that a sync writes, and the reported net entry-count change
    /// against the previously persisted store (`None` when nothing was
    /// persisted or the old store could not be read, which counts as empty).
    /// The user store and ignore list play no part here.
    pub fn sync(previous: Option<&DefaultsConfig>) -> (r: (DefaultsConfig, isize))
        requires
            match previous {
                Some(d) => d.ports@.len() <= isize::MAX,
                None => true,
            },
        ensures
            is_catalog_store(r.0),
            r.1 as int == spec_sync_delta(
                match previous {
                    Some(d) => d.ports@.len(),
                    None => 0nat,
                },
            ),
    {
        let fresh = Self::create_defaults();
        let old_count: usize = match previous {
            Some(d) => d.ports.len(),
            None => 0,
        };
        let new_count = fresh.ports.len();
        let delta = new_count as isize - old_count as isize;
        (fresh, delta)
    }
}

/// Syncing twice in a row with an unchanged catalog reports no change: the
/// store the first sync wrote already has the catalog's entry count, so the
/// second sync's delta is zero.
pub proof fn lemma_second_sync_reports_zero(d: DefaultsConfig)
    requires
        is_catalog_store(d),
    ensures
        spec_sync_delta(d.ports@.len()) == 0,
{
}

} // verus!
