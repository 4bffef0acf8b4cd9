//! A proxy node, as links and configurations describe it.

use vstd::prelude::*;

verus! {

/// A proxy node. Every field but `tls` is text; an empty text means that nothing is known.
#[derive(Debug, Clone)]
pub struct Node {
    pub name: String,
    /// The protocol, such as `vless` or `ss`.
    pub kind: String,
    pub server: String,
    pub port: String,
    pub uuid: String,
    pub password: String,
    pub cipher: String,
    pub alter_id: String,
    pub network: String,
    pub tls: bool,
    pub sni: String,
    pub host: String,
    pub path: String,
    pub flow: String,
    pub security: String,
    pub pbk: String,
    pub sid: String,
    pub alpn: String,
    pub fp: String,
    pub congestion_controller: String,
    pub encryption: String,
}

/// The model of a [`Node`].
#[verifier::ext_equal]
pub struct NodeView {
    pub name: Seq<char>,
    pub kind: Seq<char>,
    pub server: Seq<char>,
    pub port: Seq<char>,
    pub uuid: Seq<char>,
    pub password: Seq<char>,
    pub cipher: Seq<char>,
    pub alter_id: Seq<char>,
    pub network: Seq<char>,
    pub tls: bool,
    pub sni: Seq<char>,
    pub host: Seq<char>,
    pub path: Seq<char>,
    pub flow: Seq<char>,
    pub security: Seq<char>,
    pub pbk: Seq<char>,
    pub sid: Seq<char>,
    pub alpn: Seq<char>,
    pub fp: Seq<char>,
    pub congestion_controller: Seq<char>,
    pub encryption: Seq<char>,
}

impl View for Node {
    type V = NodeView;

    open spec fn view(&self) -> NodeView {
        NodeView {
            name: self.name@,
            kind: self.kind@,
            server: self.server@,
            port: self.port@,
            uuid: self.uuid@,
            password: self.password@,
            cipher: self.cipher@,
            alter_id: self.alter_id@,
            network: self.network@,
            tls: self.tls,
            sni: self.sni@,
            host: self.host@,
            path: self.path@,
            flow: self.flow@,
            security: self.security@,
            pbk: self.pbk@,
            sid: self.sid@,
            alpn: self.alpn@,
            fp: self.fp@,
            congestion_controller: self.congestion_controller@,
            encryption: self.encryption@,
        }
    }
}

/// The node of which nothing is known.
pub open spec fn blank() -> NodeView {
    NodeView {
        name: seq![],
        kind: seq![],
        server: seq![],
        port: seq![],
        uuid: seq![],
        password: seq![],
        cipher: seq![],
        alter_id: seq![],
        network: seq![],
        tls: false,
        sni: seq![],
        host: seq![],
        path: seq![],
        flow: seq![],
        security: seq![],
        pbk: seq![],
        sid: seq![],
        alpn: seq![],
        fp: seq![],
        congestion_controller: seq![],
        encryption: seq![],
    }
}

/// A node of which nothing is known holds nothing.
pub proof fn law_blank()
    ensures
        ({
            let n = blank();
            &&& n.name.len() == 0 && n.kind.len() == 0 && n.server.len() == 0 && n.port.len() == 0
            &&& n.uuid.len() == 0 && n.password.len() == 0 && n.cipher.len() == 0
            &&& n.alter_id.len() == 0 && n.network.len() == 0 && n.sni.len() == 0
            &&& n.host.len() == 0 && n.path.len() == 0 && n.flow.len() == 0
            &&& n.security.len() == 0 && n.pbk.len() == 0 && n.sid.len() == 0
            &&& n.alpn.len() == 0 && n.fp.len() == 0 && n.congestion_controller.len() == 0
            &&& n.encryption.len() == 0 && !n.tls
        }),
{
}

impl Default for Node {
    fn default() -> (r: Node)
        ensures
            r@ == blank(),
    {
        Node {
            name: String::new(),
            kind: String::new(),
            server: String::new(),
            port: String::new(),
            uuid: String::new(),
            password: String::new(),
            cipher: String::new(),
            alter_id: String::new(),
            network: String::new(),
            tls: false,
            sni: String::new(),
            host: String::new(),
            path: String::new(),
            flow: String::new(),
            security: String::new(),
            pbk: String::new(),
            sid: String::new(),
            alpn: String::new(),
            fp: String::new(),
            congestion_controller: String::new(),
            encryption: String::new(),
        }
    }
}

} // verus!
