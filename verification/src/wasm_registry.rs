//! Installing, starting and stopping WASM-powered execution extensions by RPC: the
//! requests, their texts, the module bytes that an install carries as base64, and
//! the decisions that the host takes on them. The host compiles modules from those
//! bytes and instantiates them; what that gave is handed in here.
use vstd::prelude::*;
use crate::decimal::{decimal, push_decimal};
use crate::name_set::NameSet;
use base64::Engine;

verus! {

/// A request of the RPC extension.
#[derive(Debug, Clone, PartialEq, Eq)]
pub enum RpcMessage {
    /// Install the module given (as text) under a name.
    Install(String, String),
    /// Start the module installed under a name.
    Start(String),
    /// Stop the extension running under a name.
    Stop(String),
}

/// A request as plain values.
pub enum RpcMessageView {
    Install(Seq<char>, Seq<char>),
    Start(Seq<char>),
    Stop(Seq<char>),
}

impl View for RpcMessage {
    type V = RpcMessageView;

    open spec fn view(&self) -> RpcMessageView {
        match self {
            RpcMessage::Install(name, bytecode) => RpcMessageView::Install(name@, bytecode@),
            RpcMessage::Start(name) => RpcMessageView::Start(name@),
            RpcMessage::Stop(name) => RpcMessageView::Stop(name@),
        }
    }
}

/// The number of bytes of a text in UTF-8.
pub open spec fn byte_len(t: Seq<char>) -> nat {
    vstd::utf8::encode_utf8(t).len()
}

/// `install <name> with bytecode of length <bytes>`, `start <name>`, `stop <name>`.
pub open spec fn message_text(m: RpcMessageView) -> Seq<char> {
    match m {
        RpcMessageView::Install(name, bytecode) => "install "@ + name
            + " with bytecode of length "@ + decimal(byte_len(bytecode)),
        RpcMessageView::Start(name) => "start "@ + name,
        RpcMessageView::Stop(name) => "stop "@ + name,
    }
}

impl RpcMessage {
    /// The request's text, as logs show it.
    pub fn to_string(&self) -> (s: String)
        ensures
            s@ == message_text(self@),
    {
        match self {
            RpcMessage::Install(name, bytecode) => {
                let mut s = String::from_str("install ");
                s.append(name.as_str());
                s.append(" with bytecode of length ");
                let len = bytecode.as_str().as_bytes().len();
                push_decimal(&mut s, len as u64);
                assert(s@ =~= message_text(self@));
                s
            },
            RpcMessage::Start(name) => {
                let mut s = String::from_str("start ");
                s.append(name.as_str());
                s
            },
            RpcMessage::Stop(name) => {
                let mut s = String::from_str("stop ");
                s.append(name.as_str());
                s
            },
        }
    }
}

/// Name for the bytes that a text decodes to in the standard base64 alphabet,
/// with padding, as `base64::engine::general_purpose::STANDARD.decode` computes
/// them; `None` where the text is no such encoding.
pub uninterp spec fn spec_base64_decode(text: Seq<char>) -> Option<Seq<u8>>;

/// Decodes standard base64 text.
///
/// Trusted: calls `Engine::decode` of `base64::prelude::BASE64_STANDARD`, which
/// fails on text that is no padded standard base64 and does not panic. The
/// contract claims that the result is the named decoding; of a failure it says
/// nothing but that it is one (the message is the crate's `DecodeError` text).
#[verifier::external_body]
fn decode_base64(text: &str) -> (r: Result<Vec<u8>, String>)
    ensures
        r is Ok <==> spec_base64_decode(text@) is Some,
        r matches Ok(v) ==> spec_base64_decode(text@) == Some(v@),
{
    base64::prelude::BASE64_STANDARD.decode(text).map_err(|e| e.to_string())
}

/// The bytes of the module that an install request carries as base64 text,
/// which the host compiles; `None` for other requests. Text that is no base64
/// gives the decoding error, which the host hands back as what making the module
/// gave.
pub fn module_bytecode(m: &RpcMessage) -> (r: Option<Result<Vec<u8>, String>>)
    ensures
        match m@ {
            RpcMessageView::Install(_, text) => r matches Some(b) && (b is Ok <==> spec_base64_decode(
                text,
            ) is Some) && (b matches Ok(v) ==> spec_base64_decode(text) == Some(v@)),
            _ => r is None,
        },
{
    match m {
        RpcMessage::Install(_, text) => Some(decode_base64(text.as_str())),
        _ => None,
    }
}

/// What the host must make before a request can be answered.
#[derive(Debug, Clone, Copy, PartialEq, Eq, Structural)]
pub enum Needed {
    /// Nothing: the request is answered from the registry alone.
    Nothing,
    /// A compiled module of the request's bytecode.
    Module,
    /// A running instance of the installed module.
    Instance,
}

/// The names installed and the names running.
pub struct RegistryView {
    pub installed: Set<Seq<char>>,
    pub running: Set<Seq<char>>,
}

/// What a request needs from the host.
pub open spec fn needed(r: RegistryView, m: RpcMessageView) -> Needed {
    match m {
        RpcMessageView::Install(_, _) => Needed::Module,
        RpcMessageView::Start(name) => if r.installed.contains(name) {
            Needed::Instance
        } else {
            Needed::Nothing
        },
        RpcMessageView::Stop(_) => Needed::Nothing,
    }
}

/// `failed to create module for <name>: <error>`
pub open spec fn module_error_text(name: Seq<char>, err: Seq<char>) -> Seq<char> {
    "failed to create module for "@ + name + ": "@ + err
}

/// `ExEx <name> not installed`
pub open spec fn not_installed_text(name: Seq<char>) -> Seq<char> {
    "ExEx "@ + name + " not installed"@
}

/// `failed to create exex for <name>: <error>`
pub open spec fn instance_error_text(name: Seq<char>, err: Seq<char>) -> Seq<char> {
    "failed to create exex for "@ + name + ": "@ + err
}

/// `no running exex found for <name>`
pub open spec fn not_running_text(name: Seq<char>) -> Seq<char> {
    "no running exex found for "@ + name
}

/// A result as plain values.
pub open spec fn result_text(r: Result<(), String>) -> Result<(), Seq<char>> {
    match r {
        Ok(()) => Ok(()),
        Err(e) => Err(e@),
    }
}

/// The registry after a request, and the answer, given what the host made for it
/// (`made` is read only where the request needs something).
pub open spec fn handled(r: RegistryView, m: RpcMessageView, made: Result<(), Seq<char>>) -> (
    RegistryView,
    Result<(), Seq<char>>,
) {
    match m {
        RpcMessageView::Install(name, _) => match made {
            Err(e) => (r, Err(module_error_text(name, e))),
            Ok(()) => (
                RegistryView { installed: r.installed.insert(name), running: r.running },
                Ok(()),
            ),
        },
        RpcMessageView::Start(name) => if !r.installed.contains(name) {
            (r, Err(not_installed_text(name)))
        } else {
            match made {
                Err(e) => (r, Err(instance_error_text(name, e))),
                Ok(()) => (
                    RegistryView { installed: r.installed, running: r.running.insert(name) },
                    Ok(()),
                ),
            }
        },
        RpcMessageView::Stop(name) => if r.running.contains(name) {
            (RegistryView { installed: r.installed, running: r.running.remove(name) }, Ok(()))
        } else {
            (r, Err(not_running_text(name)))
        },
    }
}

/// The extensions installed and running, by name.
pub struct WasmRegistry {
    installed: NameSet,
    running: NameSet,
}

impl View for WasmRegistry {
    type V = RegistryView;

    closed spec fn view(&self) -> RegistryView {
        RegistryView { installed: self.installed@, running: self.running@ }
    }
}

impl WasmRegistry {
    /// Each set holds each name once.
    pub closed spec fn wf(&self) -> bool {
        self.installed.wf() && self.running.wf()
    }

    /// Nothing installed, nothing running.
    pub fn new() -> (r: WasmRegistry)
        ensures
            r.wf(),
            r@.installed == Set::<Seq<char>>::empty(),
            r@.running == Set::<Seq<char>>::empty(),
    {
        WasmRegistry { installed: NameSet::new(), running: NameSet::new() }
    }

    /// Whether a module is installed under `name`.
    pub fn is_installed(&self, name: &str) -> (b: bool)
        ensures
            b == self@.installed.contains(name@),
    {
        self.installed.contains(name)
    }

    /// Whether an extension runs under `name`.
    pub fn is_running(&self, name: &str) -> (b: bool)
        ensures
            b == self@.running.contains(name@),
    {
        self.running.contains(name)
    }

    /// The names of the running extensions, which each notification is handed to.
    pub fn running_names(&self) -> (r: Vec<String>)
        ensures
            forall|t: Seq<char>| self@.running.contains(t) <==> crate::name_set::holds_text(r@, t),
    {
        self.running.names()
    }

    /// What the host must make before `m` can be answered.
    pub fn needs(&self, m: &RpcMessage) -> (n: Needed)
        ensures
            n == needed(self@, m@),
    {
        match m {
            RpcMessage::Install(_, _) => Needed::Module,
            RpcMessage::Start(name) => if self.installed.contains(name.as_str()) {
                Needed::Instance
            } else {
                Needed::Nothing
            },
            RpcMessage::Stop(_) => Needed::Nothing,
        }
    }

    /// Records a module installed under `name`, or answers why it was not.
    fn install(&mut self, name: &str, made: Result<(), String>) -> (r: Result<(), String>)
        requires
            old(self).wf(),
        ensures
            final(self).wf(),
            made is Ok ==> final(self)@ == (RegistryView {
                installed: old(self)@.installed.insert(name@),
                running: old(self)@.running,
            }) && r is Ok,
            made matches Err(e) ==> final(self)@ == old(self)@ && (r matches Err(t) && t@
                == module_error_text(name@, e@)),
    {
        match made {
            Err(e) => {
                let mut s = String::from_str("failed to create module for ");
                s.append(name);
                s.append(": ");
                s.append(e.as_str());
                assert(s@ =~= module_error_text(name@, e@));
                Err(s)
            },
            Ok(()) => {
                self.installed.insert(name);
                Ok(())
            },
        }
    }

    /// Answers a request, given what the host made for it: a module for an install, an
    /// instance for a start, or the error that making it gave.
    pub fn handle_rpc_message(&mut self, m: &RpcMessage, made: Result<(), String>) -> (r: Result<
        (),
        String,
    >)
        requires
            old(self).wf(),
        ensures
            final(self).wf(),
            (final(self)@, result_text(r)) == handled(old(self)@, m@, result_text(made)),
    {
        match m {
            RpcMessage::Install(name, _) => self.install(name.as_str(), made),
            RpcMessage::Start(name) => {
                if !self.installed.contains(name.as_str()) {
                    let mut s = String::from_str("ExEx ");
                    s.append(name.as_str());
                    s.append(" not installed");
                    return Err(s);
                }
                match made {
                    Err(e) => {
                        let mut s = String::from_str("failed to create exex for ");
                        s.append(name.as_str());
                        s.append(": ");
                        s.append(e.as_str());
                        Err(s)
                    },
                    Ok(()) => {
                        self.running.insert(name.as_str());
                        Ok(())
                    },
                }
            },
            RpcMessage::Stop(name) => {
                if self.running.remove(name.as_str()) {
                    Ok(())
                } else {
                    assert(self@.running =~= old(self)@.running);
                    let mut s = String::from_str("no running exex found for ");
                    s.append(name.as_str());
                    Err(s)
                }
            },
        }
    }
}

/// A module installed under a name can be started under it: the request is handed
/// to the host, and the extension runs when the host made its instance.
pub proof fn lemma_start_after_install(r: RegistryView, name: Seq<char>, bytecode: Seq<char>)
    ensures
        ({
            let (r1, a1) = handled(r, RpcMessageView::Install(name, bytecode), Ok(()));
            let (r2, a2) = handled(r1, RpcMessageView::Start(name), Ok(()));
            &&& a1 == Ok::<(), Seq<char>>(())
            &&& needed(r1, RpcMessageView::Start(name)) == Needed::Instance
            &&& a2 == Ok::<(), Seq<char>>(())
            &&& r2.running.contains(name)
        }),
{
}

/// A started extension can be stopped once: the first stop succeeds, the second is
/// refused, and neither touches what is installed.
pub proof fn lemma_stop_once(r: RegistryView, name: Seq<char>)
    requires
        r.running.contains(name),
    ensures
        ({
            let (r1, a1) = handled(r, RpcMessageView::Stop(name), Ok(()));
            let (r2, a2) = handled(r1, RpcMessageView::Stop(name), Ok(()));
            &&& a1 == Ok::<(), Seq<char>>(())
            &&& !r1.running.contains(name)
            &&& a2 == Err::<(), Seq<char>>(not_running_text(name))
            &&& r1.installed == r.installed
            &&& r2 == r1
        }),
{
}

/// A refused request leaves the registry as it was.
pub proof fn lemma_refusal_changes_nothing(
    r: RegistryView,
    m: RpcMessageView,
    made: Result<(), Seq<char>>,
)
    ensures
        handled(r, m, made).1 is Err ==> handled(r, m, made).0 == r,
{
}

/// Starting and stopping never change what is installed, and installing never
/// changes what runs.
pub proof fn lemma_installed_and_running_apart(
    r: RegistryView,
    m: RpcMessageView,
    made: Result<(), Seq<char>>,
)
    ensures
        m is Install ==> handled(r, m, made).0.running == r.running,
        !(m is Install) ==> handled(r, m, made).0.installed == r.installed,
{
}

/// A successful start adds its extension to those running and keeps every other
/// one running: after it, exactly the extensions that ran before and the started
/// one run, and nothing installed changes.
pub proof fn lemma_start_adds_to_running(r: RegistryView, name: Seq<char>, other: Seq<char>)
    requires
        r.installed.contains(name),
    ensures
        handled(r, RpcMessageView::Start(name), Ok(())).1 == Ok::<(), Seq<char>>(()),
        handled(r, RpcMessageView::Start(name), Ok(())).0.running.contains(name),
        handled(r, RpcMessageView::Start(name), Ok(())).0.running.contains(other) <==> (other == name
            || r.running.contains(other)),
        handled(r, RpcMessageView::Start(name), Ok(())).0.installed == r.installed,
{
}

/// A successful stop takes out its extension only: every other extension that
/// ran still runs.
pub proof fn lemma_stop_takes_out_only_it(r: RegistryView, name: Seq<char>, other: Seq<char>)
    requires
        r.running.contains(name),
    ensures
        handled(r, RpcMessageView::Stop(name), Ok(())).1 == Ok::<(), Seq<char>>(()),
        handled(r, RpcMessageView::Stop(name), Ok(())).0.running.contains(other) <==> (other != name
            && r.running.contains(other)),
{
}

/// A successful install adds its module to those installed and keeps every
/// other one.
pub proof fn lemma_install_adds_to_installed(r: RegistryView, name: Seq<char>, code: Seq<char>, other: Seq<char>)
    ensures
        handled(r, RpcMessageView::Install(name, code), Ok(())).1 == Ok::<(), Seq<char>>(()),
        handled(r, RpcMessageView::Install(name, code), Ok(())).0.installed.contains(other) <==> (other
            == name || r.installed.contains(other)),
{
}

} // verus!
