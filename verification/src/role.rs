//! Role markers: who sits at which end of the stream and how outgoing
//! payload is masked.

use vstd::prelude::*;
use crate::frame::Mask;

verus! {

/// Client or server marker. The role carries the mask stamped on outgoing
/// frame heads; any type implementing this trait is treated as a client or
/// a server.
pub trait RoleHelper: Sized {
    /// The mask this role stamps on outgoing frame heads.
    spec fn spec_mask(&self) -> Mask;

    /// The role after its mask key was set to `key`; a role without a key
    /// ignores the call.
    spec fn spec_set_mask(&self, key: [u8; 4]) -> Self;

    fn new() -> (r: Self);

    /// The mask for the next outgoing frame head.
    fn write_mask_key(&self) -> (m: Mask)
        ensures
            m == self.spec_mask(),
    ;

    /// Replace the mask key; a no-op for roles without one.
    fn set_write_mask_key(&mut self, key: [u8; 4])
        ensures
            *final(self) == old(self).spec_set_mask(key),
    ;
}

/// Client marker.
pub trait ClientRole: RoleHelper {

}

/// Server marker.
pub trait ServerRole: RoleHelper {

}

/// Client marker for roles whose key may drive automatic payload masking.
pub trait AutoMaskClientRole: ClientRole {

}

/// Simple client using an empty (fake) mask key: the mask bit is set on the
/// wire but no payload byte is changed.
#[derive(Debug, Clone, Copy, PartialEq, Eq, Structural)]
pub struct Client;

impl RoleHelper for Client {
    open spec fn spec_mask(&self) -> Mask {
        Mask::Skip
    }

    open spec fn spec_set_mask(&self, key: [u8; 4]) -> Self {
        *self
    }

    fn new() -> (r: Self) {
        Client {  }
    }

    fn write_mask_key(&self) -> (m: Mask) {
        Mask::Skip
    }

    fn set_write_mask_key(&mut self, key: [u8; 4]) {
    }
}

impl ClientRole for Client {

}

/// Standard client carrying a real mask key.
#[derive(Debug, Clone, Copy, PartialEq, Eq)]
pub struct StandardClient(pub [u8; 4]);

impl RoleHelper for StandardClient {
    open spec fn spec_mask(&self) -> Mask {
        Mask::Key(self.0)
    }

    open spec fn spec_set_mask(&self, key: [u8; 4]) -> Self {
        StandardClient(key)
    }

    fn new() -> (r: Self) {
        StandardClient([9, 9, 9, 9])
    }

    fn write_mask_key(&self) -> (m: Mask) {
        Mask::Key(self.0)
    }

    fn set_write_mask_key(&mut self, key: [u8; 4]) {
        self.0 = key;
    }
}

impl ClientRole for StandardClient {

}

impl AutoMaskClientRole for StandardClient {

}

/// Client whose mask key stays fixed for the session.
#[derive(Debug, Clone, Copy, PartialEq, Eq)]
pub struct FixedMaskClient(pub [u8; 4]);

impl RoleHelper for FixedMaskClient {
    open spec fn spec_mask(&self) -> Mask {
        Mask::Key(self.0)
    }

    open spec fn spec_set_mask(&self, key: [u8; 4]) -> Self {
        FixedMaskClient(key)
    }

    fn new() -> (r: Self) {
        FixedMaskClient([9, 9, 9, 9])
    }

    fn write_mask_key(&self) -> (m: Mask) {
        Mask::Key(self.0)
    }

    fn set_write_mask_key(&mut self, key: [u8; 4]) {
        self.0 = key;
    }
}

impl ClientRole for FixedMaskClient {

}

impl AutoMaskClientRole for FixedMaskClient {

}

/// Standard server: never masks outbound payload.
#[derive(Debug, Clone, Copy, PartialEq, Eq, Structural)]
pub struct Server;

impl RoleHelper for Server {
    open spec fn spec_mask(&self) -> Mask {
        Mask::Plain
    }

    open spec fn spec_set_mask(&self, key: [u8; 4]) -> Self {
        *self
    }

    fn new() -> (r: Self) {
        Server {  }
    }

    fn write_mask_key(&self) -> (m: Mask) {
        Mask::Plain
    }

    fn set_write_mask_key(&mut self, key: [u8; 4]) {
    }
}

impl ServerRole for Server {

}

} // verus!
