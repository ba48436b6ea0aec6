use vstd::prelude::*;

verus! {

/// The MCP servers to start.
#[derive(Clone, Debug)]
pub struct McpConfig {
    /// List of MCP servers to start/connect.
    pub servers: Vec<McpServerConfig>,
}

/// How to start one MCP server.
#[derive(Clone, Debug)]
pub struct McpServerConfig {
    /// A human-friendly name.
    pub name: String,
    /// Command to start the MCP server (stdio transport expected).
    pub command: String,
    /// Arguments for the command.
    pub args: Vec<String>,
    /// Optional environment variables for the server process.
    pub env: Vec<EnvVar>,
    /// Optional working directory.
    pub cwd: Option<String>,
}

/// One environment variable of a server process.
#[derive(Clone, Debug)]
pub struct EnvVar {
    pub key: String,
    pub value: String,
}

} // verus!
