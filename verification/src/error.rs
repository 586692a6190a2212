//! Engine error type: every failure carries the business code and a human-readable message.

use vstd::prelude::*;
use crate::text::{i64_text, int_text, owned, push_str};

verus! {

/// Business failure code shared by every engine error.
pub const ERR_BUSINESS: i64 = 99999999;

#[derive(Debug, Clone)]
pub enum JeeflowError {
    /// Business logic failure.
    Business(String),
    /// Unknown action.
    UnknownAction(String),
    /// Process definition not found.
    DefineNotFound(i64),
    /// Process instance not found.
    InstanceNotFound(i64),
    /// Task not found.
    TaskNotFound(i64),
    /// Operator not allowed.
    PermissionDenied(String),
    /// Invalid state transition.
    InvalidState(String),
    /// Invalid submit type.
    InvalidSubmitType(i64),
    /// JSON / model parse error.
    ParseError(String),
    /// Internal error.
    Internal(String),
}

pub type JeeflowResult<T> = Result<T, JeeflowError>;

/// The text every error kind renders as (prefix + payload).
pub open spec fn error_message(e: JeeflowError) -> Seq<char> {
    match e {
        JeeflowError::Business(m) => m@,
        JeeflowError::UnknownAction(a) => "未知 action: "@ + a@,
        JeeflowError::DefineNotFound(id) => "流程定义不存在: "@ + int_text(id as int),
        JeeflowError::InstanceNotFound(id) => "流程实例不存在: "@ + int_text(id as int),
        JeeflowError::TaskNotFound(id) => "任务不存在: "@ + int_text(id as int),
        JeeflowError::PermissionDenied(m) => "权限不足: "@ + m@,
        JeeflowError::InvalidState(m) => "非法状态转换: "@ + m@,
        JeeflowError::InvalidSubmitType(st) => "非法 submitType: "@ + int_text(st as int),
        JeeflowError::ParseError(m) => "解析错误: "@ + m@,
        JeeflowError::Internal(m) => "内部错误: "@ + m@,
    }
}

fn prefixed(prefix: &str, tail: &str) -> (r: String)
    ensures
        r@ == prefix@ + tail@,
{
    let mut s = owned(prefix);
    push_str(&mut s, tail);
    s
}

impl JeeflowError {
    /// Every error maps to the business failure code.
    pub fn code(&self) -> (r: i64)
        ensures
            r == ERR_BUSINESS,
    {
        ERR_BUSINESS
    }

    /// The message shown to callers.
    pub fn message(&self) -> (r: String)
        ensures
            r@ == error_message(*self),
    {
        match self {
            JeeflowError::Business(msg) => msg.clone(),
            JeeflowError::UnknownAction(a) => prefixed("未知 action: ", a.as_str()),
            JeeflowError::DefineNotFound(id) => prefixed("流程定义不存在: ", i64_text(*id).as_str()),
            JeeflowError::InstanceNotFound(id) => prefixed("流程实例不存在: ", i64_text(*id).as_str()),
            JeeflowError::TaskNotFound(id) => prefixed("任务不存在: ", i64_text(*id).as_str()),
            JeeflowError::PermissionDenied(msg) => prefixed("权限不足: ", msg.as_str()),
            JeeflowError::InvalidState(msg) => prefixed("非法状态转换: ", msg.as_str()),
            JeeflowError::InvalidSubmitType(st) => prefixed("非法 submitType: ", i64_text(*st).as_str()),
            JeeflowError::ParseError(msg) => prefixed("解析错误: ", msg.as_str()),
            JeeflowError::Internal(msg) => prefixed("内部错误: ", msg.as_str()),
        }
    }
}

} // verus!
