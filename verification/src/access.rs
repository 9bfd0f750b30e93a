//! Accessibility roles and node properties, from accesskit.
use vstd::prelude::*;

verus! {

#[verifier::external_type_specification]
#[verifier::external_body]
pub struct ExRole(accesskit::Role);

#[verifier::external_type_specification]
#[verifier::external_body]
pub struct ExNode(accesskit::Node);

/// The accessibility roles the widgets of this library take.
#[derive(Clone, Copy, PartialEq, Eq, Structural, Debug)]
pub enum AccessRole {
    /// A container with no semantics of its own.
    GenericContainer,
    /// A document.
    Document,
}

/// How accesskit's derived `Debug` spells `role`: the name of its variant.
pub uninterp spec fn role_name(role: accesskit::Role) -> Seq<char>;

/// What accesskit's `Node::value` gives back for `node`: the value property, if set.
pub uninterp spec fn node_value(node: accesskit::Node) -> Option<Seq<char>>;

impl AccessRole {
    /// The name of the variant, as accesskit spells its role of the same name.
    pub open spec fn name(self) -> Seq<char> {
        match self {
            AccessRole::GenericContainer => "GenericContainer"@,
            AccessRole::Document => "Document"@,
        }
    }

    /// The accesskit role with the same name.
    pub fn to_accesskit(self) -> (r: accesskit::Role)
        ensures
            role_name(r) == self.name(),
    {
        match self {
            AccessRole::GenericContainer => generic_container_role(),
            AccessRole::Document => document_role(),
        }
    }
}

/// accesskit's `Role::GenericContainer`: the contract claims that the role comes back
/// as the variant that `Debug` spells `GenericContainer`.
#[verifier::external_body]
pub(crate) fn generic_container_role() -> (r: accesskit::Role)
    ensures
        role_name(r) == "GenericContainer"@,
{
    accesskit::Role::GenericContainer
}

/// accesskit's `Role::Document`: the contract claims that the role comes back as the
/// variant that `Debug` spells `Document`.
#[verifier::external_body]
pub(crate) fn document_role() -> (r: accesskit::Role)
    ensures
        role_name(r) == "Document"@,
{
    accesskit::Role::Document
}

/// Calls accesskit's `Node::set_value`, which stores `value` as the node's value
/// property: the contract claims that `Node::value` then gives back `value`. What it
/// does to the node's other properties is left unsaid.
#[verifier::external_body]
pub(crate) fn node_set_value(node: &mut accesskit::Node, value: String)
    ensures
        node_value(*final(node)) == Some(value@),
{
    node.set_value(value);
}

} // verus!
