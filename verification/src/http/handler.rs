//! The interpreters a program is compiled with: each holds the context every endpoint shares.

use std::sync::Arc;
use vstd::prelude::*;

verus! {

/// Interprets typed HTTP programs as a surface that answers requests itself.
pub struct DirectHandlerImpl<Context> {
    context: Arc<Context>,
}

impl<Context> DirectHandlerImpl<Context> {
    /// The context every endpoint shares.
    pub closed spec fn shared(&self) -> Context {
        *self.context
    }

    /// Creates an interpreter owning a newly shared context.
    pub fn new(context: Context) -> (r: Self)
        ensures
            r.shared() == context,
    {
        DirectHandlerImpl { context: Arc::new(context) }
    }

    /// Creates an interpreter from an existing shared context.
    pub fn from_shared(context: Arc<Context>) -> (r: Self)
        ensures
            r.shared() == *context,
    {
        DirectHandlerImpl { context }
    }

    /// Returns the context every endpoint shares.
    pub fn context(&self) -> (r: &Arc<Context>)
        ensures
            **r == self.shared(),
    {
        &self.context
    }
}

/// Interprets typed HTTP programs as axum routes.
pub struct AxumHandlerImpl<Context> {
    context: Arc<Context>,
}

impl<Context> AxumHandlerImpl<Context> {
    /// The context every endpoint shares.
    pub closed spec fn shared(&self) -> Context {
        *self.context
    }

    /// Creates an interpreter owning a newly shared context.
    pub fn new(context: Context) -> (r: Self)
        ensures
            r.shared() == context,
    {
        AxumHandlerImpl { context: Arc::new(context) }
    }

    /// Creates an interpreter from an existing shared context.
    pub fn from_shared(context: Arc<Context>) -> (r: Self)
        ensures
            r.shared() == *context,
    {
        AxumHandlerImpl { context }
    }

    /// Returns the context every endpoint shares.
    pub fn context(&self) -> (r: &Arc<Context>)
        ensures
            **r == self.shared(),
    {
        &self.context
    }
}

/// Interprets typed HTTP programs as actix-web routes.
pub struct ActixHandlerImpl<Context> {
    context: Arc<Context>,
}

impl<Context> ActixHandlerImpl<Context> {
    /// The context every endpoint shares.
    pub closed spec fn shared(&self) -> Context {
        *self.context
    }

    /// Creates an interpreter owning a newly shared context.
    pub fn new(context: Context) -> (r: Self)
        ensures
            r.shared() == context,
    {
        ActixHandlerImpl { context: Arc::new(context) }
    }

    /// Creates an interpreter from an existing shared context.
    pub fn from_shared(context: Arc<Context>) -> (r: Self)
        ensures
            r.shared() == *context,
    {
        ActixHandlerImpl { context }
    }

    /// Returns the context every endpoint shares.
    pub fn context(&self) -> (r: &Arc<Context>)
        ensures
            **r == self.shared(),
    {
        &self.context
    }
}

} // verus!
