use crate::error::Error;
use crate::key::is_key_expr;
use crate::key::is_simple;
use crate::key::KeyExpr;
use crate::path::data_path;
use crate::path::get_data_path;
use crate::path::get_instance_path;
use crate::path::get_update_path;
use crate::path::instance_path;
use crate::path::update_path;
use vstd::prelude::*;

verus! {

/// The three texts of an address.
pub struct AddressText {
    /// The workspace in which the value is shared.
    pub workspace: Seq<char>,
    /// The identifier that tells one owner of a name from another.
    pub instance: Seq<char>,
    /// The name under which the value is shared.
    pub name: Seq<char>,
}

/// Whether the transport accepts all three topics of `address`.
pub open spec fn addressable(address: AddressText) -> bool {
    &&& is_key_expr(data_path(address.workspace, address.instance, address.name))
    &&& is_key_expr(update_path(address.workspace, address.instance, address.name))
    &&& is_key_expr(instance_path(address.workspace, address.instance, address.name))
}

/// Where one owner and its views meet: a workspace, an instance identifier
/// and a name, with the three topics that follow from them.
///
/// An owner and a view that are given the same three texts hold the same
/// three topics.
#[derive(Debug)]
pub struct Address {
    workspace: KeyExpr,
    instance: KeyExpr,
    name: KeyExpr,
    data_path: KeyExpr,
    update_path: KeyExpr,
    instance_path: KeyExpr,
}

impl View for Address {
    type V = AddressText;

    closed spec fn view(&self) -> AddressText {
        AddressText { workspace: self.workspace@, instance: self.instance@, name: self.name@ }
    }
}

impl Address {
    #[verifier::type_invariant]
    spec fn derived(self) -> bool {
        &&& self.data_path@ == data_path(self.workspace@, self.instance@, self.name@)
        &&& self.update_path@ == update_path(self.workspace@, self.instance@, self.name@)
        &&& self.instance_path@ == instance_path(self.workspace@, self.instance@, self.name@)
    }

    /// The address `(workspace, instance, name)`. Fails with
    /// `Error::Address` exactly where the transport does not accept one of
    /// its three topics, which is never so where the three texts are simple.
    pub fn new(workspace: &KeyExpr, instance: KeyExpr, name: KeyExpr) -> (r: Result<Address, Error>)
        ensures
            match r {
                Ok(address) => {
                    &&& address@ == (AddressText {
                        workspace: workspace@,
                        instance: instance@,
                        name: name@,
                    })
                    &&& addressable(address@)
                },
                Err(e) => e == Error::Address && !addressable(
                    AddressText { workspace: workspace@, instance: instance@, name: name@ },
                ),
            },
            is_simple(workspace@) && is_simple(instance@) && is_simple(name@) ==> r is Ok,
    {
        let data_path = match get_data_path(workspace, &instance, &name) {
            Ok(path) => path,
            Err(e) => { return Err(e); },
        };
        let update_path = match get_update_path(workspace, &instance, &name) {
            Ok(path) => path,
            Err(e) => { return Err(e); },
        };
        let instance_path = match get_instance_path(workspace, &instance, &name) {
            Ok(path) => path,
            Err(e) => { return Err(e); },
        };
        Ok(
            Address {
                workspace: workspace.clone(),
                instance,
                name,
                data_path,
                update_path,
                instance_path,
            },
        )
    }

    /// The workspace in which the value is shared.
    pub fn workspace(&self) -> (r: &KeyExpr)
        ensures
            r@ == self@.workspace,
    {
        &self.workspace
    }

    /// The identifier that tells one owner of the name from another.
    pub fn instance(&self) -> (r: &KeyExpr)
        ensures
            r@ == self@.instance,
    {
        &self.instance
    }

    /// The name under which the value is shared.
    pub fn name(&self) -> (r: &KeyExpr)
        ensures
            r@ == self@.name,
    {
        &self.name
    }

    /// The topic on which the owner answers snapshot queries.
    pub fn data_path(&self) -> (r: &KeyExpr)
        ensures
            r@ == data_path(self@.workspace, self@.instance, self@.name),
    {
        proof {
            use_type_invariant(self);
        }
        &self.data_path
    }

    /// The topic on which the owner publishes its commands.
    pub fn update_path(&self) -> (r: &KeyExpr)
        ensures
            r@ == update_path(self@.workspace, self@.instance, self@.name),
    {
        proof {
            use_type_invariant(self);
        }
        &self.update_path
    }

    /// The topic on which the owner answers with its instance identifier.
    pub fn instance_path(&self) -> (r: &KeyExpr)
        ensures
            r@ == instance_path(self@.workspace, self@.instance, self@.name),
    {
        proof {
            use_type_invariant(self);
        }
        &self.instance_path
    }
}

} // verus!
