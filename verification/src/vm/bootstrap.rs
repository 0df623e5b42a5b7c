//! Bringing up the control plane after the guest's k3s is ready.
//!
//! Four things happen in order: the namespace of the control plane comes up,
//! certificates are made, TLS secrets are applied with `kubectl`, and metadata
//! and credentials are stored on the host.

use super::config::ToolOutput;
use super::error::{bootstrap_error, VmError};
use crate::path::{lossy_text, text_from_utf8_lossy, UnixPath};
use crate::text::{
    concat, concat3, contains_text, decimal, decimal_text, joined, lemma_occurs, occurs_in, owned,
    text_opt, text_pairs, texts,
};
use base64::Engine;
use vstd::prelude::*;
use vstd::utf8::*;

verus! {

/// Name of the cluster in metadata and credential storage.
pub const GATEWAY_CLUSTER_NAME: &'static str = "gateway";

/// Host port of the gateway.
pub const GATEWAY_PORT: u16 = 30051;

/// Host port of the Kubernetes API.
pub const KUBE_PORT: u16 = 6443;

/// Secret with the server's certificate and key.
pub const SERVER_TLS_SECRET_NAME: &'static str = "navigator-server-tls";

/// Secret with the CA for client certificates.
pub const SERVER_CLIENT_CA_SECRET_NAME: &'static str = "navigator-server-client-ca";

/// Secret with the client bundle.
pub const CLIENT_TLS_SECRET_NAME: &'static str = "navigator-client-tls";

// ---------------------------------------------------------------------
// Namespace
// ---------------------------------------------------------------------
/// The arguments with which `kubectl` is asked for the namespace.
pub open spec fn namespace_query(kubeconfig: Seq<char>) -> Seq<Seq<char>> {
    seq!["--kubeconfig"@, kubeconfig, "get"@, "namespace"@, "navigator"@, "-o"@, "name"@]
}

/// The arguments with which `kubectl` is asked for the namespace.
pub fn namespace_args(kubeconfig: &str) -> (r: Vec<String>)
    ensures
        texts(r@) == namespace_query(kubeconfig@),
{
    let mut args: Vec<String> = Vec::new();
    args.push(owned("--kubeconfig"));
    args.push(owned(kubeconfig));
    args.push(owned("get"));
    args.push(owned("namespace"));
    args.push(owned("navigator"));
    args.push(owned("-o"));
    args.push(owned("name"));
    assert(texts(args@) =~= namespace_query(kubeconfig@));
    args
}

/// Whether the namespace is there, by what `kubectl` printed, where it could be
/// run.
pub open spec fn namespace_up(run: Option<ToolOutput>) -> bool {
    match run {
        Some(out) => out.success && occurs_in("navigator"@, lossy_text(out.stdout@)),
        None => false,
    }
}

/// Whether the namespace is there, by what `kubectl` printed, where it could be
/// run.
pub fn wait_for_namespace(run: &Option<ToolOutput>) -> (r: bool)
    ensures
        r == namespace_up(*run),
{
    match run {
        Some(out) => {
            if !out.success {
                return false;
            }
            let text: String = text_from_utf8_lossy(&out.stdout);
            contains_text(text.as_str(), "navigator")
        },
        None => false,
    }
}

/// What is told of the wait after an attempt, if anything.
pub open spec fn waiting_text(attempt: u32, limit: u32) -> Option<Seq<char>> {
    if attempt % 10 == 9 {
        Some(
            "  still waiting for navigator namespace ("@ + decimal((attempt + 1) as nat) + "/"@
                + decimal(limit as nat) + ")"@,
        )
    } else {
        None
    }
}

/// The line that tells of the wait, after every tenth of `limit` attempts;
/// `attempt` counts from zero.
pub fn waiting_line(attempt: u32, limit: u32) -> (r: Option<String>)
    requires
        attempt < limit,
    ensures
        text_opt(r) == waiting_text(attempt, limit),
{
    if attempt % 10 == 9 {
        let mut line: String = owned("  still waiting for navigator namespace (");
        line.append(decimal_text((attempt + 1) as u64).as_str());
        line.append("/");
        line.append(decimal_text(limit as u64).as_str());
        line.append(")");
        Some(line)
    } else {
        None
    }
}

// ---------------------------------------------------------------------
// Secrets
// ---------------------------------------------------------------------
/// Certificates and keys, in PEM form.
#[derive(Debug)]
pub struct PkiBundle {
    pub ca_cert_pem: String,
    pub server_cert_pem: String,
    pub server_key_pem: String,
    pub client_cert_pem: String,
    pub client_key_pem: String,
}

/// The length of the base64 encoding of so many bytes.
pub open spec fn base64_len(n: nat) -> int {
    4 * (n / 3 + if n % 3 > 0 {
        1int
    } else {
        0
    })
}

/// Whether the base64 encoding of a text fits in memory.
pub open spec fn encodes(text: Seq<char>) -> bool {
    base64_len(encode_utf8(text).len()) <= isize::MAX
}

fn text_encodes(text: &str) -> (r: bool)
    ensures
        r == encodes(text@),
{
    let n: usize = text.as_bytes().len();
    let mut chunks: usize = n / 3;
    if n % 3 > 0 {
        chunks = chunks + 1;
    }
    chunks <= (isize::MAX as usize) / 4
}

impl PkiBundle {
    /// Whether the base64 encodings of all parts fit in memory.
    pub open spec fn fits(self) -> bool {
        encodes(self.ca_cert_pem@) && encodes(self.server_cert_pem@) && encodes(
            self.server_key_pem@,
        ) && encodes(self.client_cert_pem@) && encodes(self.client_key_pem@)
    }

    /// Whether the base64 encodings of all parts fit in memory.
    pub fn fits_in_memory(&self) -> (r: bool)
        ensures
            r == self.fits(),
    {
        text_encodes(self.ca_cert_pem.as_str()) && text_encodes(self.server_cert_pem.as_str())
            && text_encodes(self.server_key_pem.as_str()) && text_encodes(
            self.client_cert_pem.as_str(),
        ) && text_encodes(self.client_key_pem.as_str())
    }
}

/// The three bytes from `at` on as one number, the first in front; zeros stand
/// for those behind the end.
pub open spec fn base64_group(bytes: Seq<u8>, at: int) -> int {
    let byte = |i: int|
        if i < bytes.len() {
            bytes[i] as int
        } else {
            0
        };
    byte(at) * 0x10000 + byte(at + 1) * 0x100 + byte(at + 2)
}

/// The character for a number below 64.
pub open spec fn base64_digit(n: int) -> char {
    "ABCDEFGHIJKLMNOPQRSTUVWXYZabcdefghijklmnopqrstuvwxyz0123456789+/"@[n]
}

/// The standard base64 encoding of the given bytes: every three of them give
/// four characters of six bits, and `=` stands where no bit comes from a byte.
pub open spec fn base64_text(bytes: Seq<u8>) -> Seq<char> {
    Seq::new(
        base64_len(bytes.len()) as nat,
        |i: int|
            {
                let at = i / 4 * 3;
                let group = base64_group(bytes, at);
                if i % 4 == 0 {
                    base64_digit(group / 0x40000)
                } else if i % 4 == 1 {
                    base64_digit(group / 0x1000 % 64)
                } else if at + i % 4 > bytes.len() {
                    '='
                } else if i % 4 == 2 {
                    base64_digit(group / 64 % 64)
                } else {
                    base64_digit(group % 64)
                }
            },
    )
}

/// Encodes the bytes of a text with the `STANDARD` engine of the `base64`
/// crate, by `Engine::encode`: the alphabet is the standard one, and the
/// encoding is padded.
///
/// The call allocates four bytes for every three begun and panics where they do
/// not fit.
#[verifier::external_body]
fn base64_encode(text: &str) -> (r: String)
    requires
        encodes(text@),
    ensures
        r@ == base64_text(encode_utf8(text@)),
{
    base64::engine::general_purpose::STANDARD.encode(text)
}

/// A character in a JSON string: quotes, backslashes and control characters are
/// escaped, the latter by a letter or by two lower-case hexadecimal digits.
pub open spec fn json_char(c: char) -> Seq<char> {
    let code = c as int;
    let hex = "0123456789abcdef"@;
    if c == '"' || c == '\\' {
        seq!['\\', c]
    } else if code == 8 {
        "\\b"@
    } else if code == 9 {
        "\\t"@
    } else if code == 10 {
        "\\n"@
    } else if code == 12 {
        "\\f"@
    } else if code == 13 {
        "\\r"@
    } else if code < 32 {
        "\\u00"@ + seq![hex[code / 16], hex[code % 16]]
    } else {
        seq![c]
    }
}

/// The characters of a text in a JSON string.
pub open spec fn json_chars(text: Seq<char>) -> Seq<char>
    decreases text.len(),
{
    if text.len() == 0 {
        Seq::empty()
    } else {
        json_chars(text.drop_last()) + json_char(text.last())
    }
}

/// A text as a JSON string, quotes included.
pub open spec fn json_string(text: Seq<char>) -> Seq<char> {
    "\""@ + json_chars(text) + "\""@
}

/// Writes a text as a JSON string, by the `Display` of `serde_json::Value`:
/// between quotes, with the escapes of its compact formatter.
#[verifier::external_body]
fn json_quote(text: &str) -> (r: String)
    ensures
        r@ == json_string(text@),
{
    serde_json::Value::from(text).to_string()
}

/// A member of a JSON object.
pub open spec fn json_member(pair: (Seq<char>, Seq<char>)) -> Seq<char> {
    json_string(pair.0) + ":"@ + json_string(pair.1)
}

/// The members of a JSON object, with commas between them.
pub open spec fn json_members(pairs: Seq<(Seq<char>, Seq<char>)>) -> Seq<char> {
    joined(Seq::new(pairs.len(), |i: int| json_member(pairs[i])), ',')
}

/// The manifest of a secret in the control plane's namespace, as compact JSON
/// with its members in the order of their names.
pub open spec fn secret_manifest(
    name: Seq<char>,
    kind: Seq<char>,
    data: Seq<(Seq<char>, Seq<char>)>,
) -> Seq<char> {
    "{\"apiVersion\":\"v1\",\"data\":{"@ + json_members(data)
        + "},\"kind\":\"Secret\",\"metadata\":{\"name\":"@ + json_string(name)
        + ",\"namespace\":\"navigator\"},\"type\":"@ + json_string(kind) + "}"@
}

/// Renders the manifest of a secret.
pub fn render_secret(name: &str, kind: &str, data: &Vec<(String, String)>) -> (r: String)
    ensures
        r@ == secret_manifest(name@, kind@, text_pairs(data@)),
{
    let ghost pairs = text_pairs(data@);
    let ghost members = Seq::new(pairs.len(), |i: int| json_member(pairs[i]));
    let mut list: String = owned("");
    proof {
        reveal_strlit("");
        reveal_strlit(",");
        assert(""@ =~= Seq::<char>::empty());
        assert(members.take(0) =~= Seq::<Seq<char>>::empty());
    }
    let mut i: usize = 0;
    while i < data.len()
        invariant
            i <= data.len(),
            pairs == text_pairs(data@),
            members == Seq::new(pairs.len(), |i: int| json_member(pairs[i])),
            list@ == joined(members.take(i as int), ','),
            ","@.len() == 1,
            ","@[0] == ',',
        decreases data.len() - i,
    {
        let ghost before = list@;
        if i > 0 {
            list.append(",");
        }
        list.append(json_quote(data[i].0.as_str()).as_str());
        list.append(":");
        list.append(json_quote(data[i].1.as_str()).as_str());
        proof {
            let now = members.take(i + 1);
            assert(now.drop_last() =~= members.take(i as int));
            assert(now.last() == json_member(pairs[i as int]));
            if i == 0 {
                assert(before =~= Seq::<char>::empty());
                assert(list@ =~= json_member(pairs[0]));
                assert(joined(now, ',') == now[0]);
            } else {
                assert(list@ =~= before.push(',') + json_member(pairs[i as int]));
            }
        }
        i = i + 1;
    }
    assert(members.take(i as int) =~= members);
    let mut text: String = owned("{\"apiVersion\":\"v1\",\"data\":{");
    text.append(list.as_str());
    text.append("},\"kind\":\"Secret\",\"metadata\":{\"name\":");
    text.append(json_quote(name).as_str());
    text.append(",\"namespace\":\"navigator\"},\"type\":");
    text.append(json_quote(kind).as_str());
    text.append("}");
    text
}

/// A secret and its manifest.
#[derive(Debug, PartialEq, Eq)]
pub struct TlsSecret {
    pub name: String,
    pub manifest: String,
}

/// The names and manifests of the TLS secrets, in the order in which they are
/// applied.
pub open spec fn tls_secrets(bundle: PkiBundle) -> Seq<(Seq<char>, Seq<char>)> {
    let ca = ("ca.crt"@, base64_text(encode_utf8(bundle.ca_cert_pem@)));
    let server_cert = ("tls.crt"@, base64_text(encode_utf8(bundle.server_cert_pem@)));
    let server_key = ("tls.key"@, base64_text(encode_utf8(bundle.server_key_pem@)));
    let client_cert = ("tls.crt"@, base64_text(encode_utf8(bundle.client_cert_pem@)));
    let client_key = ("tls.key"@, base64_text(encode_utf8(bundle.client_key_pem@)));
    seq![
        (
            SERVER_TLS_SECRET_NAME@,
            secret_manifest(
                SERVER_TLS_SECRET_NAME@,
                "kubernetes.io/tls"@,
                seq![server_cert, server_key],
            ),
        ),
        (
            SERVER_CLIENT_CA_SECRET_NAME@,
            secret_manifest(SERVER_CLIENT_CA_SECRET_NAME@, "Opaque"@, seq![ca]),
        ),
        (
            CLIENT_TLS_SECRET_NAME@,
            secret_manifest(
                CLIENT_TLS_SECRET_NAME@,
                "Opaque"@,
                seq![ca, client_cert, client_key],
            ),
        ),
    ]
}

/// The names and manifests in a list of secrets.
pub open spec fn secret_views(list: Seq<TlsSecret>) -> Seq<(Seq<char>, Seq<char>)> {
    Seq::new(list.len(), |i: int| (list[i].name@, list[i].manifest@))
}

/// The three TLS secrets that the control plane needs: the server's identity,
/// the CA for clients, and the client bundle.
pub fn apply_tls_secrets(bundle: &PkiBundle) -> (r: Vec<TlsSecret>)
    requires
        bundle.fits(),
    ensures
        secret_views(r@) == tls_secrets(*bundle),
{
    let mut server: Vec<(String, String)> = Vec::new();
    server.push((owned("tls.crt"), base64_encode(bundle.server_cert_pem.as_str())));
    server.push((owned("tls.key"), base64_encode(bundle.server_key_pem.as_str())));
    assert(text_pairs(server@) =~= seq![
        ("tls.crt"@, base64_text(encode_utf8(bundle.server_cert_pem@))),
        ("tls.key"@, base64_text(encode_utf8(bundle.server_key_pem@))),
    ]);
    let mut ca: Vec<(String, String)> = Vec::new();
    ca.push((owned("ca.crt"), base64_encode(bundle.ca_cert_pem.as_str())));
    assert(text_pairs(ca@) =~= seq![
        ("ca.crt"@, base64_text(encode_utf8(bundle.ca_cert_pem@))),
    ]);
    let mut client: Vec<(String, String)> = Vec::new();
    client.push((owned("ca.crt"), base64_encode(bundle.ca_cert_pem.as_str())));
    client.push((owned("tls.crt"), base64_encode(bundle.client_cert_pem.as_str())));
    client.push((owned("tls.key"), base64_encode(bundle.client_key_pem.as_str())));
    assert(text_pairs(client@) =~= seq![
        ("ca.crt"@, base64_text(encode_utf8(bundle.ca_cert_pem@))),
        ("tls.crt"@, base64_text(encode_utf8(bundle.client_cert_pem@))),
        ("tls.key"@, base64_text(encode_utf8(bundle.client_key_pem@))),
    ]);
    let mut list: Vec<TlsSecret> = Vec::new();
    list.push(
        TlsSecret {
            name: owned(SERVER_TLS_SECRET_NAME),
            manifest: render_secret(SERVER_TLS_SECRET_NAME, "kubernetes.io/tls", &server),
        },
    );
    list.push(
        TlsSecret {
            name: owned(SERVER_CLIENT_CA_SECRET_NAME),
            manifest: render_secret(SERVER_CLIENT_CA_SECRET_NAME, "Opaque", &ca),
        },
    );
    list.push(
        TlsSecret {
            name: owned(CLIENT_TLS_SECRET_NAME),
            manifest: render_secret(CLIENT_TLS_SECRET_NAME, "Opaque", &client),
        },
    );
    assert(secret_views(list@) =~= tls_secrets(*bundle));
    list
}

// ---------------------------------------------------------------------
// kubectl
// ---------------------------------------------------------------------
/// The arguments with which `kubectl` applies a manifest from its input.
pub open spec fn apply_query(kubeconfig: Seq<char>) -> Seq<Seq<char>> {
    seq!["--kubeconfig"@, kubeconfig, "apply"@, "-f"@, "-"@]
}

/// The arguments with which `kubectl` applies a manifest from its input.
pub fn apply_args(kubeconfig: &str) -> (r: Vec<String>)
    ensures
        texts(r@) == apply_query(kubeconfig@),
{
    let mut args: Vec<String> = Vec::new();
    args.push(owned("--kubeconfig"));
    args.push(owned(kubeconfig));
    args.push(owned("apply"));
    args.push(owned("-f"));
    args.push(owned("-"));
    assert(texts(args@) =~= apply_query(kubeconfig@));
    args
}

/// What came of applying a manifest.
#[derive(Debug)]
pub enum ApplyRun {
    SpawnFailed { error: String },
    WriteFailed { error: String },
    WaitFailed { error: String },
    Ended { success: bool, stderr: Vec<u8> },
}

/// Why a manifest was not applied, if so.
pub open spec fn apply_fault(run: ApplyRun) -> Option<Seq<char>> {
    match run {
        ApplyRun::SpawnFailed { error } => Some("failed to spawn kubectl: "@ + error@),
        ApplyRun::WriteFailed { error } => Some(
            "failed to write manifest to kubectl stdin: "@ + error@,
        ),
        ApplyRun::WaitFailed { error } => Some("failed to wait for kubectl: "@ + error@),
        ApplyRun::Ended { success, stderr } => if success {
            None
        } else {
            Some("kubectl apply failed: "@ + lossy_text(stderr@))
        },
    }
}

/// Whether a manifest was applied.
pub fn kubectl_apply(run: &ApplyRun) -> (r: Result<(), String>)
    ensures
        match r {
            Ok(_) => apply_fault(*run) is None,
            Err(e) => apply_fault(*run) == Some(e@),
        },
{
    match run {
        ApplyRun::SpawnFailed { error } => Err(
            concat("failed to spawn kubectl: ", error.as_str()),
        ),
        ApplyRun::WriteFailed { error } => Err(
            concat("failed to write manifest to kubectl stdin: ", error.as_str()),
        ),
        ApplyRun::WaitFailed { error } => Err(
            concat("failed to wait for kubectl: ", error.as_str()),
        ),
        ApplyRun::Ended { success, stderr } => {
            if *success {
                Ok(())
            } else {
                let text: String = text_from_utf8_lossy(stderr);
                Err(concat("kubectl apply failed: ", text.as_str()))
            }
        },
    }
}

// ---------------------------------------------------------------------
// Metadata
// ---------------------------------------------------------------------
/// Metadata of a cluster.
#[derive(Debug, PartialEq, Eq)]
pub struct ClusterMetadata {
    pub name: String,
    pub gateway_endpoint: String,
    pub is_remote: bool,
    pub gateway_port: u16,
    pub kube_port: Option<u16>,
    pub remote_host: Option<String>,
    pub resolved_host: Option<String>,
}

/// Metadata of the gateway's cluster.
pub fn gateway_metadata() -> (r: ClusterMetadata)
    ensures
        r.name@ == GATEWAY_CLUSTER_NAME@,
        r.gateway_endpoint@ == "https://127.0.0.1:"@ + decimal(GATEWAY_PORT as nat),
        !r.is_remote,
        r.gateway_port == GATEWAY_PORT,
        r.kube_port == Some(KUBE_PORT),
        r.remote_host is None,
        r.resolved_host is None,
{
    ClusterMetadata {
        name: owned(GATEWAY_CLUSTER_NAME),
        gateway_endpoint: concat(
            "https://127.0.0.1:",
            decimal_text(GATEWAY_PORT as u64).as_str(),
        ),
        is_remote: false,
        gateway_port: GATEWAY_PORT,
        kube_port: Some(KUBE_PORT),
        remote_host: None,
        resolved_host: None,
    }
}

// ---------------------------------------------------------------------
// The order of things
// ---------------------------------------------------------------------
/// What is to be done next.
#[derive(Debug, Clone, Copy, PartialEq, Eq, Structural)]
pub enum BootstrapStage {
    /// Wait for the namespace.
    Namespace,
    /// Make the certificates.
    Pki,
    /// Apply the server's identity.
    ServerSecret,
    /// Apply the CA for clients.
    ClientCaSecret,
    /// Apply the client bundle.
    ClientSecret,
    /// Store the cluster's metadata.
    Metadata,
    /// Store the credentials.
    Mtls,
    /// Make the cluster the active one.
    Active,
}

/// Where a result leads.
#[derive(Debug, PartialEq, Eq)]
pub enum BootstrapStep {
    Next { stage: BootstrapStage },
    Complete,
    Failed { error: VmError },
}

/// The stage that follows one that succeeded.
pub open spec fn stage_after(stage: BootstrapStage) -> Option<BootstrapStage> {
    match stage {
        BootstrapStage::Namespace => Some(BootstrapStage::Pki),
        BootstrapStage::Pki => Some(BootstrapStage::ServerSecret),
        BootstrapStage::ServerSecret => Some(BootstrapStage::ClientCaSecret),
        BootstrapStage::ClientCaSecret => Some(BootstrapStage::ClientSecret),
        BootstrapStage::ClientSecret => Some(BootstrapStage::Metadata),
        BootstrapStage::Metadata => Some(BootstrapStage::Mtls),
        BootstrapStage::Mtls => Some(BootstrapStage::Active),
        BootstrapStage::Active => None,
    }
}

/// The text of a failure in a stage.
pub open spec fn stage_failure(stage: BootstrapStage, error: Seq<char>) -> Seq<char> {
    match stage {
        BootstrapStage::Namespace =>
            "timed out waiting for navigator namespace (240s). Check console.log for k3s errors."@,
        BootstrapStage::Pki => "PKI generation failed: "@ + error,
        BootstrapStage::ServerSecret => "failed to create secret "@ + SERVER_TLS_SECRET_NAME@
            + ": "@ + error,
        BootstrapStage::ClientCaSecret => "failed to create secret "@
            + SERVER_CLIENT_CA_SECRET_NAME@ + ": "@ + error,
        BootstrapStage::ClientSecret => "failed to create secret "@ + CLIENT_TLS_SECRET_NAME@
            + ": "@ + error,
        BootstrapStage::Metadata => "failed to store cluster metadata: "@ + error,
        BootstrapStage::Mtls => "failed to store mTLS credentials: "@ + error,
        BootstrapStage::Active => "failed to set active cluster: "@ + error,
    }
}

/// The kubeconfig path as `kubectl` gets it; it must be UTF-8.
pub fn kubeconfig_text(kubeconfig: &UnixPath) -> (r: Result<String, VmError>)
    ensures
        match r {
            Ok(text) => encode_utf8(text@) == kubeconfig@,
            Err(e) => !valid_utf8(kubeconfig@) && (e matches VmError::InvalidPath(p) && p@
                == lossy_text(kubeconfig@)),
        },
        valid_utf8(kubeconfig@) ==> r is Ok,
{
    match kubeconfig.to_str() {
        Some(text) => Ok(text),
        None => Err(VmError::InvalidPath(kubeconfig.display())),
    }
}

fn secret_failure(name: &str, error: &str) -> (r: String)
    ensures
        r@ == "failed to create secret "@ + name@ + ": "@ + error@,
{
    let mut message: String = concat3("failed to create secret ", name, ": ");
    message.append(error);
    message
}

/// Whether the result of a stage leads to `r`.
pub open spec fn stage_leads(
    stage: BootstrapStage,
    result: Result<(), String>,
    r: BootstrapStep,
) -> bool {
    match result {
        Ok(_) => match stage_after(stage) {
            Some(next) => r == (BootstrapStep::Next { stage: next }),
            None => r == BootstrapStep::Complete,
        },
        Err(error) => r matches BootstrapStep::Failed { error: e } && bootstrap_error(
            e,
            stage_failure(stage, error@),
        ),
    }
}

/// Where the result of a stage leads: the first failure ends the bootstrap, and
/// so does success in the last stage.
pub fn bootstrap_gateway(stage: BootstrapStage, result: &Result<(), String>) -> (r: BootstrapStep)
    ensures
        stage_leads(stage, *result, r),
{
    match result {
        Ok(_) => match stage {
            BootstrapStage::Namespace => BootstrapStep::Next { stage: BootstrapStage::Pki },
            BootstrapStage::Pki => BootstrapStep::Next { stage: BootstrapStage::ServerSecret },
            BootstrapStage::ServerSecret => BootstrapStep::Next {
                stage: BootstrapStage::ClientCaSecret,
            },
            BootstrapStage::ClientCaSecret => BootstrapStep::Next {
                stage: BootstrapStage::ClientSecret,
            },
            BootstrapStage::ClientSecret => BootstrapStep::Next { stage: BootstrapStage::Metadata },
            BootstrapStage::Metadata => BootstrapStep::Next { stage: BootstrapStage::Mtls },
            BootstrapStage::Mtls => BootstrapStep::Next { stage: BootstrapStage::Active },
            BootstrapStage::Active => BootstrapStep::Complete,
        },
        Err(error) => {
            let message: String = match stage {
                BootstrapStage::Namespace => owned(
                    "timed out waiting for navigator namespace (240s). Check console.log for k3s errors.",
                ),
                BootstrapStage::Pki => concat("PKI generation failed: ", error.as_str()),
                BootstrapStage::ServerSecret => secret_failure(
                    SERVER_TLS_SECRET_NAME,
                    error.as_str(),
                ),
                BootstrapStage::ClientCaSecret => secret_failure(
                    SERVER_CLIENT_CA_SECRET_NAME,
                    error.as_str(),
                ),
                BootstrapStage::ClientSecret => secret_failure(
                    CLIENT_TLS_SECRET_NAME,
                    error.as_str(),
                ),
                BootstrapStage::Metadata => concat(
                    "failed to store cluster metadata: ",
                    error.as_str(),
                ),
                BootstrapStage::Mtls => concat(
                    "failed to store mTLS credentials: ",
                    error.as_str(),
                ),
                BootstrapStage::Active => concat("failed to set active cluster: ", error.as_str()),
            };
            BootstrapStep::Failed { error: VmError::Bootstrap(message) }
        },
    }
}

/// The index of the secret that a stage applies, in the order of the secrets.
pub open spec fn stage_secret(stage: BootstrapStage) -> Option<int> {
    match stage {
        BootstrapStage::ServerSecret => Some(0),
        BootstrapStage::ClientCaSecret => Some(1),
        BootstrapStage::ClientSecret => Some(2),
        _ => None,
    }
}

/// A failure to create a secret names the secret that the stage applies.
pub proof fn law_secret_failure_names_it(bundle: PkiBundle, stage: BootstrapStage, error: Seq<char>)
    requires
        stage_secret(stage) is Some,
    ensures
        stage_failure(stage, error) == "failed to create secret "@ + tls_secrets(
            bundle,
        )[stage_secret(stage)->0].0 + ": "@ + error,
{
}

/// The number of a stage.
pub open spec fn stage_number(stage: BootstrapStage) -> int {
    match stage {
        BootstrapStage::Namespace => 0,
        BootstrapStage::Pki => 1,
        BootstrapStage::ServerSecret => 2,
        BootstrapStage::ClientCaSecret => 3,
        BootstrapStage::ClientSecret => 4,
        BootstrapStage::Metadata => 5,
        BootstrapStage::Mtls => 6,
        BootstrapStage::Active => 7,
    }
}

/// The bootstrap goes through its stages one by one and skips none: success leads
/// to the next one, and in the last one to the end; a failure ends it, as a
/// bootstrap error whose text ends with the reason, or says that the namespace
/// did not come.
pub proof fn law_bootstrap_order(
    stage: BootstrapStage,
    result: Result<(), String>,
    r: BootstrapStep,
)
    requires
        stage_leads(stage, result, r),
    ensures
        result is Ok ==> (if stage_number(stage) < 7 {
            r matches BootstrapStep::Next { stage: next } && stage_number(next) == stage_number(
                stage,
            ) + 1
        } else {
            r is Complete
        }),
        result is Err <==> r is Failed,
        result matches Err(error) ==> (r matches BootstrapStep::Failed {
            error: VmError::Bootstrap(text),
        } && (if stage is Namespace {
            occurs_in("timed out waiting for navigator namespace"@, text@)
        } else {
            error@.is_suffix_of(text@)
        })),
{
    match result {
        Err(error) => {
            let t = stage_failure(stage, error@);
            if stage is Namespace {
                reveal_strlit("timed out waiting for navigator namespace");
                reveal_strlit(
                    "timed out waiting for navigator namespace (240s). Check console.log for k3s errors.",
                );
                crate::text::lemma_occurs_at("timed out waiting for navigator namespace"@, t, 0);
            } else {
                assert(error@ =~= t.subrange(t.len() - error@.len(), t.len() as int));
            }
        },
        Ok(_) => {},
    }
}

/// Failures of two stages are told apart.
pub proof fn law_stage_failures_apart(a: BootstrapStage, b: BootstrapStage, error: Seq<char>)
    requires
        stage_failure(a, error) == stage_failure(b, error),
        !(a is Namespace) && !(b is Namespace),
    ensures
        a == b,
{
    lemma_stage_chars(a, error);
    lemma_stage_chars(b, error);
}

proof fn lemma_stage_chars(stage: BootstrapStage, error: Seq<char>)
    requires
        !(stage is Namespace),
    ensures
        ({
            let t = stage_failure(stage, error);
            match stage {
                BootstrapStage::Namespace => false,
                BootstrapStage::Pki => t[0] == 'P',
                BootstrapStage::ServerSecret => t[0] == 'f' && t[10] == 'c' && t[34] == 's'
                    && t[41] == 't',
                BootstrapStage::ClientCaSecret => t[0] == 'f' && t[10] == 'c' && t[34] == 's'
                    && t[41] == 'c',
                BootstrapStage::ClientSecret => t[0] == 'f' && t[10] == 'c' && t[34] == 'c',
                BootstrapStage::Metadata => t[0] == 'f' && t[10] == 's' && t[11] == 't' && t[16]
                    == 'c',
                BootstrapStage::Mtls => t[0] == 'f' && t[10] == 's' && t[11] == 't' && t[16] == 'm',
                BootstrapStage::Active => t[0] == 'f' && t[10] == 's' && t[11] == 'e',
            }
        }),
{
    reveal_strlit("PKI generation failed: ");
    reveal_strlit("failed to create secret ");
    reveal_strlit("navigator-server-tls");
    reveal_strlit("navigator-server-client-ca");
    reveal_strlit("navigator-client-tls");
    reveal_strlit("failed to store cluster metadata: ");
    reveal_strlit("failed to store mTLS credentials: ");
    reveal_strlit("failed to set active cluster: ");
    reveal_strlit(": ");
}

/// The namespace is there exactly where `kubectl` ended with success and printed
/// its name; `kubectl` is asked with the gateway's own kubeconfig, and so it is
/// when a manifest is applied.
pub proof fn law_namespace(run: Option<ToolOutput>, kubeconfig: Seq<char>)
    ensures
        namespace_up(run) <==> (run matches Some(out) && out.success && occurs_in(
            "navigator"@,
            lossy_text(out.stdout@),
        )),
        namespace_query(kubeconfig)[0] == "--kubeconfig"@,
        namespace_query(kubeconfig)[1] == kubeconfig,
        namespace_query(kubeconfig).skip(2) == seq![
            "get"@,
            "namespace"@,
            "navigator"@,
            "-o"@,
            "name"@,
        ],
        apply_query(kubeconfig)[0] == "--kubeconfig"@,
        apply_query(kubeconfig)[1] == kubeconfig,
        apply_query(kubeconfig).skip(2) == seq!["apply"@, "-f"@, "-"@],
{
    assert(apply_query(kubeconfig).skip(2) =~= seq!["apply"@, "-f"@, "-"@]);
    assert(namespace_query(kubeconfig).skip(2) =~= seq![
        "get"@,
        "namespace"@,
        "navigator"@,
        "-o"@,
        "name"@,
    ]);
}

/// The wait is told of at every tenth attempt, with the attempts made and their
/// limit.
pub proof fn law_waiting_text(attempt: u32, limit: u32)
    requires
        attempt < limit,
    ensures
        waiting_text(attempt, limit) is Some <==> (attempt + 1) % 10 == 0,
        waiting_text(attempt, limit) matches Some(text) ==> occurs_in(
            decimal((attempt + 1) as nat) + "/"@ + decimal(limit as nat),
            text,
        ),
{
    let shown = decimal((attempt + 1) as nat) + "/"@ + decimal(limit as nat);
    let front = "  still waiting for navigator namespace ("@;
    lemma_occurs(front, shown, ")"@);
    assert(front + shown + ")"@ =~= front + decimal((attempt + 1) as nat) + "/"@ + decimal(
        limit as nat,
    ) + ")"@);
}

/// A manifest was applied exactly where `kubectl` ended with success; else the
/// text ends with the reason, or with what `kubectl` wrote to its error stream.
pub proof fn law_apply_outcome(run: ApplyRun)
    ensures
        apply_fault(run) is None <==> (run matches ApplyRun::Ended { success, .. } && success),
        apply_fault(run) matches Some(text) ==> match run {
            ApplyRun::SpawnFailed { error } => error@.is_suffix_of(text),
            ApplyRun::WriteFailed { error } => error@.is_suffix_of(text),
            ApplyRun::WaitFailed { error } => error@.is_suffix_of(text),
            ApplyRun::Ended { stderr, .. } => lossy_text(stderr@).is_suffix_of(text),
        },
{
    match apply_fault(run) {
        Some(text) => {
            let end = match run {
                ApplyRun::SpawnFailed { error } => error@,
                ApplyRun::WriteFailed { error } => error@,
                ApplyRun::WaitFailed { error } => error@,
                ApplyRun::Ended { stderr, .. } => lossy_text(stderr@),
            };
            assert(end =~= text.subrange(text.len() - end.len(), text.len() as int));
        },
        None => {},
    }
}

proof fn lemma_joined_holds(list: Seq<Seq<char>>, k: int)
    requires
        0 <= k < list.len(),
    ensures
        occurs_in(list[k], joined(list, ',')),
    decreases list.len(),
{
    let none = Seq::<char>::empty();
    if list.len() == 1 {
        assert(joined(list, ',') =~= none + list[0] + none);
        lemma_occurs(none, list[0], none);
    } else {
        let front = list.drop_last();
        let head = joined(front, ',');
        if k == list.len() - 1 {
            assert(joined(list, ',') =~= head.push(',') + list[k] + none);
            lemma_occurs(head.push(','), list[k], none);
        } else {
            lemma_joined_holds(front, k);
            lemma_occurs_in_longer(list[k], head, none, seq![','] + list.last());
            assert(joined(list, ',') =~= none + head + (seq![','] + list.last()));
        }
    }
}

proof fn lemma_occurs_in_longer(part: Seq<char>, s: Seq<char>, front: Seq<char>, back: Seq<char>)
    requires
        occurs_in(part, s),
    ensures
        occurs_in(part, front + s + back),
{
    let i = choose|i: int|
        0 <= i <= s.len() - part.len() && #[trigger] s.subrange(i, i + part.len()) == part;
    assert forall|k: int| 0 <= k < part.len() implies #[trigger] part[k] == (front + s
        + back)[front.len() + i + k] by {
        assert(s.subrange(i, i + part.len())[k] == s[i + k]);
    }
    crate::text::lemma_occurs_at(part, front + s + back, front.len() + i);
}

/// A manifest holds what it is made for: the secret's name and its kind, the
/// control plane's namespace, and every entry of its data under its own key.
pub proof fn law_manifest(name: Seq<char>, kind: Seq<char>, data: Seq<(Seq<char>, Seq<char>)>)
    ensures
        ({
            let manifest = secret_manifest(name, kind, data);
            &&& occurs_in("\"metadata\":{\"name\":"@ + json_string(name), manifest)
            &&& occurs_in("\"namespace\":\"navigator\""@, manifest)
            &&& occurs_in("\"type\":"@ + json_string(kind), manifest)
            &&& forall|k: int|
                0 <= k < data.len() ==> occurs_in(
                    json_string((#[trigger] data[k]).0) + ":"@ + json_string(data[k].1),
                    manifest,
                )
        }),
{
    let manifest = secret_manifest(name, kind, data);
    let head = "{\"apiVersion\":\"v1\",\"data\":{"@;
    let a = "},\"kind\":\"Secret\",\"metadata\":{\"name\":"@;
    let b = ",\"namespace\":\"navigator\"},\"type\":"@;
    let list = json_members(data);
    reveal_strlit("},\"kind\":\"Secret\",\"metadata\":{\"name\":");
    reveal_strlit(",\"namespace\":\"navigator\"},\"type\":");
    reveal_strlit("\"metadata\":{\"name\":");
    reveal_strlit("\"namespace\":\"navigator\"");
    reveal_strlit("\"type\":");
    let na = "\"metadata\":{\"name\":"@;
    let ty = "\"type\":"@;
    let ns = "\"namespace\":\"navigator\""@;
    assert(a =~= a.take(18) + na);
    assert(b =~= b.take(1) + ns + b.subrange(24, 26) + ty);
    let tail = json_string(kind) + "}"@;
    assert(manifest =~= (head + list + a.take(18)) + (na + json_string(name)) + (b + tail));
    lemma_occurs(head + list + a.take(18), na + json_string(name), b + tail);
    let upto = head + list + a + json_string(name);
    assert(manifest =~= (upto + b.take(1)) + ns + (b.subrange(24, 26) + ty + tail));
    lemma_occurs(upto + b.take(1), ns, b.subrange(24, 26) + ty + tail);
    assert(manifest =~= (upto + b.take(26)) + (ty + json_string(kind)) + "}"@);
    lemma_occurs(upto + b.take(26), ty + json_string(kind), "}"@);
    let members = Seq::new(data.len(), |i: int| json_member(data[i]));
    assert forall|k: int| 0 <= k < data.len() implies occurs_in(
        json_string((#[trigger] data[k]).0) + ":"@ + json_string(data[k].1),
        manifest,
    ) by {
        lemma_joined_holds(members, k);
        let back = a + json_string(name) + b + tail;
        lemma_occurs_in_longer(members[k], list, head, back);
        assert(manifest =~= head + list + back);
    }
}

/// Whether a manifest holds a value under a key, encoded.
pub open spec fn holds(manifest: Seq<char>, key: Seq<char>, value: Seq<char>) -> bool {
    occurs_in(
        json_string(key) + ":"@ + json_string(base64_text(encode_utf8(value))),
        manifest,
    )
}

/// Each part of the bundle is in the secrets that need it, and under its key: the
/// server's certificate and key in the first, the CA in the second, and the CA
/// with the client's certificate and key in the third.
pub proof fn law_secrets_hold_the_bundle(bundle: PkiBundle)
    ensures
        tls_secrets(bundle).len() == 3,
        tls_secrets(bundle)[0].0 == "navigator-server-tls"@,
        holds(tls_secrets(bundle)[0].1, "tls.crt"@, bundle.server_cert_pem@),
        holds(tls_secrets(bundle)[0].1, "tls.key"@, bundle.server_key_pem@),
        tls_secrets(bundle)[1].0 == "navigator-server-client-ca"@,
        holds(tls_secrets(bundle)[1].1, "ca.crt"@, bundle.ca_cert_pem@),
        tls_secrets(bundle)[2].0 == "navigator-client-tls"@,
        holds(tls_secrets(bundle)[2].1, "ca.crt"@, bundle.ca_cert_pem@),
        holds(tls_secrets(bundle)[2].1, "tls.crt"@, bundle.client_cert_pem@),
        holds(tls_secrets(bundle)[2].1, "tls.key"@, bundle.client_key_pem@),
{
    let ca = ("ca.crt"@, base64_text(encode_utf8(bundle.ca_cert_pem@)));
    let server_cert = ("tls.crt"@, base64_text(encode_utf8(bundle.server_cert_pem@)));
    let server_key = ("tls.key"@, base64_text(encode_utf8(bundle.server_key_pem@)));
    let client_cert = ("tls.crt"@, base64_text(encode_utf8(bundle.client_cert_pem@)));
    let client_key = ("tls.key"@, base64_text(encode_utf8(bundle.client_key_pem@)));
    let a = seq![server_cert, server_key];
    let b = seq![ca];
    let c = seq![ca, client_cert, client_key];
    law_manifest(SERVER_TLS_SECRET_NAME@, "kubernetes.io/tls"@, a);
    law_manifest(SERVER_CLIENT_CA_SECRET_NAME@, "Opaque"@, b);
    law_manifest(CLIENT_TLS_SECRET_NAME@, "Opaque"@, c);
    assert(a[0] == server_cert && a[1] == server_key);
    assert(b[0] == ca);
    assert(c[0] == ca && c[1] == client_cert && c[2] == client_key);
}

/// A secret is known by its own name and manifest.
pub proof fn law_secret_views(list: Seq<TlsSecret>)
    ensures
        secret_views(list).len() == list.len(),
        forall|i: int|
            0 <= i < list.len() ==> (#[trigger] secret_views(list)[i]).0 == list[i].name@
                && secret_views(list)[i].1 == list[i].manifest@,
{
}

/// A text can be encoded where four characters for every three bytes begun fit in
/// memory: in particular every text of up to half of the address space.
pub proof fn law_encodes(text: Seq<char>)
    ensures
        ({
            let n = encode_utf8(text).len();
            &&& base64_len(n) % 4 == 0
            &&& 4 * n <= 3 * base64_len(n) < 4 * n + 12
            &&& encodes(text) <==> base64_len(n) <= isize::MAX
            &&& n <= isize::MAX / 2 ==> encodes(text)
            &&& base64_text(encode_utf8(text)).len() == base64_len(n)
        }),
{
}

} // verus!
