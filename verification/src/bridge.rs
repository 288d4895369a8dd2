//! The settings inside a script session: which steps a session goes
//! through, and what a script may read from the settings bound in it.

use vstd::prelude::*;
use crate::config::{field_of, ConfigView, KraitConfig};
use crate::schema::{key_is, Field};
use crate::value::{Value, ValueView};

verus! {

/// Where a script session stands.
#[derive(Debug, Clone, Copy, PartialEq, Eq, Structural)]
pub enum SessionState {
    /// The interpreter exists; nothing is bound in it.
    Created,
    /// The settings are registered under their global name.
    Bound,
    /// Script code runs and may read the settings.
    Active,
    /// The interpreter is gone, and the bound settings with it.
    Closed,
}

/// Why the settings are not available to a session.
#[derive(Debug, Clone, PartialEq, Eq)]
pub enum BridgeError {
    /// The settings could not be bound under the global name given here:
    /// the interpreter refused them, or the session is past binding.
    BindingFailed(String),
}

/// The mathematical content of a [`Session`].
pub struct SessionView {
    pub state: SessionState,
    pub model: Option<ConfigView>,
}

/// One script session, with the copy of the settings that is bound in it.
pub struct Session {
    state: SessionState,
    model: Option<KraitConfig>,
}

/// The global name under which the settings are bound.
pub open spec fn global_name() -> Seq<char> {
    "krait"@
}

/// The field that a script reads under `name`: the fields go by the names
/// under which they are written.
pub open spec fn field_named(name: Seq<char>) -> Option<Field> {
    if name == "name"@ {
        Some(Field::Name)
    } else if name == "author"@ {
        Some(Field::Author)
    } else if name == "ver"@ {
        Some(Field::Ver)
    } else if name == "desc"@ {
        Some(Field::Desc)
    } else if name == "license"@ {
        Some(Field::License)
    } else if name == "git"@ {
        Some(Field::Git)
    } else if name == "pkgs"@ {
        Some(Field::Pkgs)
    } else if name == "dir"@ {
        Some(Field::Dir)
    } else if name == "repos"@ {
        Some(Field::Repos)
    } else if name == "args"@ {
        Some(Field::Args)
    } else {
        None
    }
}

/// A session in which nothing is bound yet.
pub open spec fn created() -> SessionView {
    SessionView { state: SessionState::Created, model: None }
}

/// The session after an attempt to bind `model`; `accepted` says whether
/// the interpreter took the value. Binding succeeds in a fresh session that
/// the interpreter lets it into, and nowhere else.
pub open spec fn bound(s: SessionView, model: ConfigView, accepted: bool) -> Option<SessionView> {
    if s.state == SessionState::Created && accepted {
        Some(SessionView { state: SessionState::Bound, model: Some(model) })
    } else {
        None
    }
}

/// The session once script code runs: a bound session becomes active, any
/// other stays as it is.
pub open spec fn started(s: SessionView) -> SessionView {
    if s.state == SessionState::Bound {
        SessionView { state: SessionState::Active, ..s }
    } else {
        s
    }
}

/// The session after its interpreter is torn down.
pub open spec fn closed(s: SessionView) -> SessionView {
    SessionView { state: SessionState::Closed, model: None }
}

/// What a script reads under `name`: in an active session the field of
/// that name of the bound settings, and nothing otherwise.
pub open spec fn read_in(s: SessionView, name: Seq<char>) -> Option<ValueView> {
    if s.state == SessionState::Active && s.model is Some {
        match field_named(name) {
            Some(f) => Some(field_of(s.model->0, f)),
            None => None,
        }
    } else {
        None
    }
}

/// The field that goes by `name`.
pub fn field_for(name: &str) -> (r: Option<Field>)
    ensures
        r == field_named(name@),
{
    let n = name.to_owned();
    if key_is(&n, "name") {
        Some(Field::Name)
    } else if key_is(&n, "author") {
        Some(Field::Author)
    } else if key_is(&n, "ver") {
        Some(Field::Ver)
    } else if key_is(&n, "desc") {
        Some(Field::Desc)
    } else if key_is(&n, "license") {
        Some(Field::License)
    } else if key_is(&n, "git") {
        Some(Field::Git)
    } else if key_is(&n, "pkgs") {
        Some(Field::Pkgs)
    } else if key_is(&n, "dir") {
        Some(Field::Dir)
    } else if key_is(&n, "repos") {
        Some(Field::Repos)
    } else if key_is(&n, "args") {
        Some(Field::Args)
    } else {
        None
    }
}

impl View for Session {
    type V = SessionView;

    closed spec fn view(&self) -> SessionView {
        SessionView {
            state: self.state,
            model: match self.model {
                Some(m) => Some(m@),
                None => None,
            },
        }
    }
}

impl Session {
    /// Settings are held exactly while the session is bound or active.
    #[verifier::type_invariant]
    spec fn holds_model_while_bound(&self) -> bool {
        self.model is Some <==> (self.state == SessionState::Bound || self.state
            == SessionState::Active)
    }

    /// Whether the session holds settings exactly while it is bound or
    /// active; every session that this library hands out does.
    pub open spec fn well_formed(s: SessionView) -> bool {
        s.model is Some <==> (s.state == SessionState::Bound || s.state == SessionState::Active)
    }

    /// A session for an interpreter that was just made.
    pub fn new() -> (r: Session)
        ensures
            r@ == created(),
    {
        Session { state: SessionState::Created, model: None }
    }

    /// Where the session stands.
    pub fn state(&self) -> (r: SessionState)
        ensures
            r == self@.state,
            Session::well_formed(self@),
    {
        proof {
            use_type_invariant(self);
        }
        self.state
    }

    /// Takes a copy of `model` into the session, after the interpreter was
    /// asked to register it under the global name; `accepted` is its
    /// answer. Fails, naming the global, where the interpreter refused or
    /// the session is past binding.
    pub fn bind(self, model: &KraitConfig, accepted: bool) -> (r: Result<Session, BridgeError>)
        ensures
            match r {
                Ok(s) => bound(self@, model@, accepted) == Some(s@),
                Err(BridgeError::BindingFailed(global)) => bound(self@, model@, accepted) is None
                    && global@ == global_name(),
            },
    {
        match (self.state, accepted) {
            (SessionState::Created, true) => Ok(
                Session { state: SessionState::Bound, model: Some(model.clone()) },
            ),
            _ => Err(BridgeError::BindingFailed("krait".to_owned())),
        }
    }

    /// The session once script code runs.
    pub fn start(self) -> (r: Session)
        ensures
            r@ == started(self@),
    {
        proof {
            use_type_invariant(&self);
        }
        match self.state {
            SessionState::Bound => Session { state: SessionState::Active, model: self.model },
            _ => self,
        }
    }

    /// The session after its interpreter is torn down. The bound settings
    /// go with it.
    pub fn close(self) -> (r: Session)
        ensures
            r@ == closed(self@),
    {
        Session { state: SessionState::Closed, model: None }
    }

    /// What a script reads under `name`.
    pub fn read(&self, name: &str) -> (r: Option<Value>)
        ensures
            match r {
                Some(v) => read_in(self@, name@) == Some(v@),
                None => read_in(self@, name@) is None,
            },
    {
        match (self.state, &self.model) {
            (SessionState::Active, Some(m)) => match field_for(name) {
                Some(f) => Some(m.get(f)),
                None => None,
            },
            _ => None,
        }
    }
}

/// Sessions are isolated: each holds its own copy of the settings it was
/// bound with. Whatever becomes of the copy in one session, a script in
/// another session that was bound with the same settings still reads those
/// settings.
pub proof fn lemma_sessions_isolated(
    m: ConfigView,
    changed: ConfigView,
    name: Seq<char>,
)
    ensures
        ({
            let first = bound(created(), m, true)->0;
            let second = bound(created(), m, true)->0;
            let first_changed = SessionView { model: Some(changed), ..first };
            &&& read_in(started(first_changed), name) == match field_named(name) {
                Some(f) => Some(field_of(changed, f)),
                None => None,
            }
            &&& read_in(started(second), name) == match field_named(name) {
                Some(f) => Some(field_of(m, f)),
                None => None,
            }
        }),
{
}

/// Nothing is read before a session is active or after it is closed, and a
/// closed session cannot be bound again.
pub proof fn lemma_session_lifetime(s: SessionView, m: ConfigView, name: Seq<char>, accepted: bool)
    ensures
        s.state != SessionState::Active ==> read_in(s, name) is None,
        read_in(closed(s), name) is None,
        bound(closed(s), m, accepted) is None,
        started(closed(s)) == closed(s),
{
}

} // verus!
