//! The checks a server and a service must pass before they are saved.
use vstd::prelude::*;

use crate::domain::{domain_labels_ok, domain_ok, domain_shape_ok, label_ok};
use crate::error::GateError;
use crate::model::{AuthType, SshServer, WebService};
use crate::text::{
    chars_of, contains_char, ends_with, is_alnum, is_ascii_alnum, is_blank, split_on, trim,
};

verus! {

broadcast use vstd::string::group_string_axioms;

/// The outcome of `validate_server`.
pub open spec fn server_check(server: SshServer) -> Result<(), GateError> {
    if trim(server.name@).len() == 0 || trim(server.host@).len() == 0 || trim(
        server.username@,
    ).len() == 0 {
        Err(GateError::ServerFieldsMissing)
    } else if server.auth_type == AuthType::Key && trim(server.private_key_path@).len() == 0 {
        Err(GateError::KeyPathMissing)
    } else {
        Ok(())
    }
}

/// The outcome of `validate_service`.
pub open spec fn service_check(service: WebService) -> Result<(), GateError> {
    service_fields_check(service.name@, service.remote_host@, service.domain@)
}

/// The outcome of `validate_service` on a service with these texts.
pub open spec fn service_fields_check(name: Seq<char>, remote_host: Seq<char>, domain: Seq<char>) -> Result<
    (),
    GateError,
> {
    if name.len() == 0 || remote_host.len() == 0 || domain.len() == 0 {
        Err(GateError::ServiceFieldsMissing)
    } else if !domain_shape_ok(domain) {
        Err(GateError::DomainNotLocalhost)
    } else if !domain_labels_ok(domain) {
        Err(GateError::DomainInvalidCharacters)
    } else {
        Ok(())
    }
}

/// A server needs a name, a host and a user name, and key authentication
/// needs a key path; blank text counts as missing.
pub fn validate_server(server: &SshServer) -> (r: Result<(), GateError>)
    ensures
        r == server_check(*server),
{
    if is_blank(server.name.as_str()) || is_blank(server.host.as_str()) || is_blank(
        server.username.as_str(),
    ) {
        return Err(GateError::ServerFieldsMissing);
    }
    if server.auth_type == AuthType::Key && is_blank(server.private_key_path.as_str()) {
        return Err(GateError::KeyPathMissing);
    }
    Ok(())
}

fn label_is_ok(l: &Vec<char>) -> (r: bool)
    ensures
        r == label_ok(l@),
{
    if l.len() == 0 || l[0] == '-' || l[l.len() - 1] == '-' {
        return false;
    }
    let mut i: usize = 0;
    while i < l.len()
        invariant
            i <= l.len(),
            forall|j: int| 0 <= j < i ==> (is_ascii_alnum(#[trigger] l@[j]) || l@[j] == '-'),
        decreases l.len() - i,
    {
        if !(is_alnum(l[i]) || l[i] == '-') {
            return false;
        }
        i = i + 1;
    }
    true
}

fn labels_are_ok(d: &Vec<char>) -> (r: bool)
    ensures
        r == domain_labels_ok(d@),
{
    let mut cur: Vec<char> = Vec::new();
    let mut i: usize = 0;
    assert(d@.take(0) =~= Seq::<char>::empty());
    while i < d.len()
        invariant
            i <= d.len(),
            split_on(d@.take(i as int), '.').len() >= 1,
            forall|k: int|
                0 <= k < split_on(d@.take(i as int), '.').len() - 1 ==> label_ok(
                    #[trigger] split_on(d@.take(i as int), '.')[k],
                ),
            cur@ == split_on(d@.take(i as int), '.').last(),
        decreases d.len() - i,
    {
        let ghost parts = split_on(d@.take(i as int), '.');
        let c = d[i];
        assert(d@.take(i + 1).drop_last() =~= d@.take(i as int));
        assert(d@.take(i + 1).last() == c);
        if c == '.' {
            if !label_is_ok(&cur) {
                proof {
                    let np = split_on(d@.take(i + 1), '.');
                    assert(np[parts.len() - 1] == cur@);
                    crate::text::lemma_split_on_nonempty(d@, '.');
                    crate::text::lemma_split_prefix_parts(d@, i as int + 1, '.');
                    assert(split_on(d@, '.')[parts.len() - 1] == np[parts.len() - 1]);
                }
                return false;
            }
            cur = Vec::new();
        } else {
            cur.push(c);
        }
        i = i + 1;
    }
    assert(d@.take(d.len() as int) =~= d@);
    label_is_ok(&cur)
}

/// A service needs a name, a remote host and a domain; the domain must end
/// in `.localhost`, hold no `:`, `/` or space, and each of its labels must be
/// letters, digits and inner dashes.
pub fn validate_service(service: &WebService) -> (r: Result<(), GateError>)
    ensures
        r == service_check(*service),
        r is Ok ==> domain_ok(service.domain@),
{
    if service.name.as_str().is_empty() || service.remote_host.as_str().is_empty()
        || service.domain.as_str().is_empty() {
        return Err(GateError::ServiceFieldsMissing);
    }
    let d = chars_of(service.domain.as_str());
    let suffix = chars_of(".localhost");
    if !ends_with(&d, &suffix) || contains_char(&d, ':') || contains_char(&d, '/') || contains_char(
        &d,
        ' ',
    ) {
        return Err(GateError::DomainNotLocalhost);
    }
    if !labels_are_ok(&d) {
        return Err(GateError::DomainInvalidCharacters);
    }
    Ok(())
}

} // verus!
