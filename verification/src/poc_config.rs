//! Configuration of the proof-of-concept tools: where they find the source chain,
//! the block cache and the execution chain, and where they keep their data.

use vstd::prelude::*;

use vstd::string::StringExecFns;

verus! {

/// The configuration file read by default.
pub const DEFAULT_CONFIG_FILE: &'static str = "../config.json";

/// The directory, under the data root, of the attestation chain.
pub const DEFAULT_ATTESTATION_CHAIN_DIR: &'static str = "attestation-chain";

/// The file of the attestation chain.
pub const DEFAULT_ATTESTATION_CHAIN_FILE: &'static str = "chain.json";

/// The root of the tools' data.
pub const DATA_ROOT_DIR: &'static str = "../data";

/// The directory, under the data root, of the execution chain.
pub const EXECUTION_CHAIN_DIR: &'static str = "execution-chain";

/// The directory, under the data root, of the attestation database.
pub const ATTESTATION_DB_DIR: &'static str = "db";

/// `a`, a slash, then `b`.
pub open spec fn joined(a: Seq<char>, b: Seq<char>) -> Seq<char> {
    a + seq!['/'] + b
}

/// `a`, a slash, then `b`.
pub fn join_path(a: &str, b: &str) -> (r: String)
    ensures
        r@ == joined(a@, b@),
{
    let mut r = String::from_str(a);
    r.append("/");
    r.append(b);
    proof {
        reveal_strlit("/");
        assert(r@ =~= joined(a@, b@));
    }
    r
}

/// A copy of an optional string.
pub fn copy_opt(s: &Option<String>) -> (r: Option<String>)
    ensures
        match r {
            Some(x) => s matches Some(y) && x@ == y@,
            None => s is None,
        },
{
    match s {
        Some(x) => Some(x.clone()),
        None => None,
    }
}

/// The optional string as a string slice.
pub fn opt_as_str(s: &Option<String>) -> (r: Option<&str>)
    ensures
        match r {
            Some(x) => s matches Some(y) && x@ == y@,
            None => s is None,
        },
{
    match s {
        Some(x) => Some(x.as_str()),
        None => None,
    }
}

/// The configuration of the attestation blocks builder.
pub struct AttestationBlocksBuilderConfig {
    source_chain_wss_server_url: String,
    max_num_of_blocks_to_retrieve: Option<usize>,
    output_path: Option<String>,
    output_file: Option<String>,
}

impl AttestationBlocksBuilderConfig {
    /// Blocks retrieved at once when the configuration does not say.
    pub const DEFAULT_MAX_BLOCKS_TO_RETRIEVE: usize = 5;

    pub closed spec fn spec_source_chain_wss_server_url(&self) -> Seq<char> {
        self.source_chain_wss_server_url@
    }

    pub closed spec fn spec_max_num_of_blocks_to_retrieve(&self) -> Option<usize> {
        self.max_num_of_blocks_to_retrieve
    }

    pub closed spec fn spec_output_path(&self) -> Option<Seq<char>> {
        match self.output_path {
            Some(p) => Some(p@),
            None => None,
        }
    }

    pub closed spec fn spec_output_file(&self) -> Option<Seq<char>> {
        match self.output_file {
            Some(p) => Some(p@),
            None => None,
        }
    }

    /// A configuration with the given settings.
    pub fn new(
        source_chain_wss_server_url: String,
        max_num_of_blocks_to_retrieve: Option<usize>,
        output_path: Option<String>,
        output_file: Option<String>,
    ) -> (r: Self)
        ensures
            r.spec_source_chain_wss_server_url() == source_chain_wss_server_url@,
            r.spec_max_num_of_blocks_to_retrieve() == max_num_of_blocks_to_retrieve,
            r.spec_output_path() == match output_path {
                Some(p) => Some(p@),
                None => None::<Seq<char>>,
            },
            r.spec_output_file() == match output_file {
                Some(p) => Some(p@),
                None => None::<Seq<char>>,
            },
    {
        AttestationBlocksBuilderConfig {
            source_chain_wss_server_url,
            max_num_of_blocks_to_retrieve,
            output_path,
            output_file,
        }
    }

    pub fn source_chain_wss_server_url(&self) -> (r: &str)
        ensures
            r@ == self.spec_source_chain_wss_server_url(),
    {
        self.source_chain_wss_server_url.as_str()
    }

    pub fn max_num_of_blocks_to_retrieve(&self) -> (r: Option<usize>)
        ensures
            r == self.spec_max_num_of_blocks_to_retrieve(),
    {
        self.max_num_of_blocks_to_retrieve
    }

    pub fn default_max_num_of_blocks_to_retrieve() -> (r: usize)
        ensures
            r == 5,
    {
        Self::DEFAULT_MAX_BLOCKS_TO_RETRIEVE
    }

    /// The configured output path, if any.
    pub fn output_path(&self) -> (r: Option<&str>)
        ensures
            match r {
                Some(x) => self.spec_output_path() == Some(x@),
                None => self.spec_output_path() is None,
            },
    {
        opt_as_str(&self.output_path)
    }

    pub fn output_file(&self) -> (r: Option<&str>)
        ensures
            match r {
                Some(x) => self.spec_output_file() == Some(x@),
                None => self.spec_output_file() is None,
            },
    {
        opt_as_str(&self.output_file)
    }

    pub fn default_output_file() -> (r: &'static str)
        ensures
            r@ == "chain.json"@,
    {
        DEFAULT_ATTESTATION_CHAIN_FILE
    }

    /// The output directory: the configured one, else the default one.
    pub fn path(&self) -> (r: String)
        ensures
            r@ == match self.spec_output_path() {
                Some(p) => p,
                None => joined("../data"@, "attestation-chain"@),
            },
    {
        match &self.output_path {
            Some(p) => p.clone(),
            None => Self::default_path(),
        }
    }

    /// The default output directory, under the data root.
    pub fn default_path() -> (r: String)
        ensures
            r@ == joined("../data"@, "attestation-chain"@),
    {
        join_path(DATA_ROOT_DIR, DEFAULT_ATTESTATION_CHAIN_DIR)
    }

    /// The output file's path: the output directory (configured or default), a
    /// slash, and the file (configured or default).
    pub fn full_path(&self) -> (r: String)
        ensures
            r@ == joined(
                match self.spec_output_path() {
                    Some(p) => p,
                    None => joined("../data"@, "attestation-chain"@),
                },
                match self.spec_output_file() {
                    Some(f) => f,
                    None => "chain.json"@,
                },
            ),
    {
        let file = match self.output_file() {
            Some(f) => f,
            None => Self::default_output_file(),
        };
        match &self.output_path {
            Some(p) => join_path(p.as_str(), file),
            None => {
                let d = Self::default_path();
                join_path(d.as_str(), file)
            },
        }
    }

    /// The default output file's path.
    pub fn default_full_path() -> (r: String)
        ensures
            r@ == joined(joined("../data"@, "attestation-chain"@), "chain.json"@),
    {
        let d = Self::default_path();
        join_path(d.as_str(), Self::default_output_file())
    }
}

/// The configuration of the demo prover.
pub struct DemoProverConfig {
    db_url: Option<String>,
}

impl DemoProverConfig {
    pub closed spec fn spec_db_url(&self) -> Option<Seq<char>> {
        match self.db_url {
            Some(p) => Some(p@),
            None => None,
        }
    }

    /// A configuration with the given database location.
    pub fn new(db_url: Option<String>) -> (r: Self)
        ensures
            r.spec_db_url() == match db_url {
                Some(p) => Some(p@),
                None => None::<Seq<char>>,
            },
    {
        DemoProverConfig { db_url }
    }

    pub fn db_url(&self) -> (r: Option<&str>)
        ensures
            match r {
                Some(x) => self.spec_db_url() == Some(x@),
                None => self.spec_db_url() is None,
            },
    {
        opt_as_str(&self.db_url)
    }

    /// The default database location, under the data root.
    pub fn default_db_url() -> (r: String)
        ensures
            r@ == joined("../data"@, "db"@),
    {
        join_path(DATA_ROOT_DIR, ATTESTATION_DB_DIR)
    }
}

impl Default for DemoProverConfig {
    /// The configuration with the default database location.
    fn default() -> (r: Self)
        ensures
            r.spec_db_url() == Some(joined("../data"@, "db"@)),
    {
        DemoProverConfig { db_url: Some(Self::default_db_url()) }
    }
}

/// The configuration of the claim prover.
pub struct ClaimProverConfig {
    attestation_chain: Option<String>,
}

impl ClaimProverConfig {
    pub closed spec fn spec_attestation_chain(&self) -> Option<Seq<char>> {
        match self.attestation_chain {
            Some(p) => Some(p@),
            None => None,
        }
    }

    /// A configuration with the given attestation chain file.
    pub fn new(attestation_chain: Option<String>) -> (r: Self)
        ensures
            r.spec_attestation_chain() == match attestation_chain {
                Some(p) => Some(p@),
                None => None::<Seq<char>>,
            },
    {
        ClaimProverConfig { attestation_chain }
    }

    pub fn attestation_chain_file(&self) -> (r: Option<String>)
        ensures
            match r {
                Some(x) => self.spec_attestation_chain() == Some(x@),
                None => self.spec_attestation_chain() is None,
            },
    {
        copy_opt(&self.attestation_chain)
    }

    /// The default attestation chain file: that of the blocks builder.
    pub fn default_attestation_chain_file() -> (r: String)
        ensures
            r@ == joined(joined("../data"@, "attestation-chain"@), "chain.json"@),
    {
        AttestationBlocksBuilderConfig::default_full_path()
    }
}

/// The configuration of the proof-of-concept tools.
pub struct PocConfig {
    source_chain_api_server_url: String,
    block_cache_url: Option<String>,
    execution_chain_url: Option<String>,
    attestation_blocks_builder: Option<AttestationBlocksBuilderConfig>,
    demo_prover: Option<DemoProverConfig>,
    claim_prover: Option<ClaimProverConfig>,
}

impl PocConfig {
    pub closed spec fn spec_source_chain_api_server_url(&self) -> Seq<char> {
        self.source_chain_api_server_url@
    }

    pub closed spec fn spec_block_cache_url(&self) -> Option<Seq<char>> {
        match self.block_cache_url {
            Some(p) => Some(p@),
            None => None,
        }
    }

    pub closed spec fn spec_execution_chain_url(&self) -> Option<Seq<char>> {
        match self.execution_chain_url {
            Some(p) => Some(p@),
            None => None,
        }
    }

    pub closed spec fn spec_attestation_blocks_builder(&self) -> Option<AttestationBlocksBuilderConfig> {
        self.attestation_blocks_builder
    }

    pub closed spec fn spec_demo_prover(&self) -> Option<DemoProverConfig> {
        self.demo_prover
    }

    pub closed spec fn spec_claim_prover(&self) -> Option<ClaimProverConfig> {
        self.claim_prover
    }

    /// A configuration with the given settings.
    pub fn new(
        source_chain_api_server_url: String,
        block_cache_url: Option<String>,
        execution_chain_url: Option<String>,
        attestation_blocks_builder: Option<AttestationBlocksBuilderConfig>,
        demo_prover: Option<DemoProverConfig>,
        claim_prover: Option<ClaimProverConfig>,
    ) -> (r: Self)
        ensures
            r.spec_source_chain_api_server_url() == source_chain_api_server_url@,
            r.spec_block_cache_url() == match block_cache_url {
                Some(p) => Some(p@),
                None => None::<Seq<char>>,
            },
            r.spec_execution_chain_url() == match execution_chain_url {
                Some(p) => Some(p@),
                None => None::<Seq<char>>,
            },
            r.spec_attestation_blocks_builder() == attestation_blocks_builder,
            r.spec_demo_prover() == demo_prover,
            r.spec_claim_prover() == claim_prover,
    {
        PocConfig {
            source_chain_api_server_url,
            block_cache_url,
            execution_chain_url,
            attestation_blocks_builder,
            demo_prover,
            claim_prover,
        }
    }

    /// The configuration file read by default.
    pub fn default_file() -> (r: &'static str)
        ensures
            r@ == "../config.json"@,
    {
        DEFAULT_CONFIG_FILE
    }

    pub fn source_chain_api_server_url(&self) -> (r: &str)
        ensures
            r@ == self.spec_source_chain_api_server_url(),
    {
        self.source_chain_api_server_url.as_str()
    }

    pub fn block_cache_url(&self) -> (r: Option<&str>)
        ensures
            match r {
                Some(x) => self.spec_block_cache_url() == Some(x@),
                None => self.spec_block_cache_url() is None,
            },
    {
        opt_as_str(&self.block_cache_url)
    }

    pub fn attestation_blocks_builder(&self) -> (r: Option<&AttestationBlocksBuilderConfig>)
        ensures
            match r {
                Some(x) => self.spec_attestation_blocks_builder() == Some(*x),
                None => self.spec_attestation_blocks_builder() is None,
            },
    {
        match &self.attestation_blocks_builder {
            Some(b) => Some(b),
            None => None,
        }
    }

    pub fn demo_prover(&self) -> (r: Option<&DemoProverConfig>)
        ensures
            match r {
                Some(x) => self.spec_demo_prover() == Some(*x),
                None => self.spec_demo_prover() is None,
            },
    {
        match &self.demo_prover {
            Some(b) => Some(b),
            None => None,
        }
    }

    pub fn claim_prover(&self) -> (r: Option<&ClaimProverConfig>)
        ensures
            match r {
                Some(x) => self.spec_claim_prover() == Some(*x),
                None => self.spec_claim_prover() is None,
            },
    {
        match &self.claim_prover {
            Some(b) => Some(b),
            None => None,
        }
    }

    pub fn execution_chain_url(&self) -> (r: Option<&str>)
        ensures
            match r {
                Some(x) => self.spec_execution_chain_url() == Some(x@),
                None => self.spec_execution_chain_url() is None,
            },
    {
        opt_as_str(&self.execution_chain_url)
    }

    /// The default location of the execution chain, under the data root.
    pub fn default_execution_chain_url() -> (r: String)
        ensures
            r@ == joined("../data"@, "execution-chain"@),
    {
        join_path(DATA_ROOT_DIR, EXECUTION_CHAIN_DIR)
    }
}

} // verus!
