//! Numeric values of the platform's security constants, and the closed
//! enumerations that decode them.

use vstd::prelude::*;

verus! {

/// ACE type tags recognised by this crate.
#[allow(non_camel_case_types)]
#[derive(Clone, Copy, Debug, PartialEq, Eq, Structural, Hash)]
pub enum AceType {
    ACCESS_ALLOWED_ACE_TYPE,
    ACCESS_ALLOWED_CALLBACK_ACE_TYPE,
    ACCESS_ALLOWED_CALLBACK_OBJECT_ACE_TYPE,
    ACCESS_ALLOWED_OBJECT_ACE_TYPE,
    ACCESS_DENIED_ACE_TYPE,
    ACCESS_DENIED_CALLBACK_ACE_TYPE,
    ACCESS_DENIED_CALLBACK_OBJECT_ACE_TYPE,
    ACCESS_DENIED_OBJECT_ACE_TYPE,
    SYSTEM_AUDIT_ACE_TYPE,
    SYSTEM_AUDIT_CALLBACK_ACE_TYPE,
    SYSTEM_AUDIT_CALLBACK_OBJECT_ACE_TYPE,
    SYSTEM_AUDIT_OBJECT_ACE_TYPE,
    SYSTEM_MANDATORY_LABEL_ACE_TYPE,
    SYSTEM_RESOURCE_ATTRIBUTE_ACE_TYPE,
    SYSTEM_SCOPED_POLICY_ID_ACE_TYPE,
}

/// The platform's tag byte for each ACE type.
pub open spec fn ace_type_tag(t: AceType) -> u8 {
    match t {
        AceType::ACCESS_ALLOWED_ACE_TYPE => 0x00,
        AceType::ACCESS_DENIED_ACE_TYPE => 0x01,
        AceType::SYSTEM_AUDIT_ACE_TYPE => 0x02,
        AceType::ACCESS_ALLOWED_OBJECT_ACE_TYPE => 0x05,
        AceType::ACCESS_DENIED_OBJECT_ACE_TYPE => 0x06,
        AceType::SYSTEM_AUDIT_OBJECT_ACE_TYPE => 0x07,
        AceType::ACCESS_ALLOWED_CALLBACK_ACE_TYPE => 0x09,
        AceType::ACCESS_DENIED_CALLBACK_ACE_TYPE => 0x0A,
        AceType::ACCESS_ALLOWED_CALLBACK_OBJECT_ACE_TYPE => 0x0B,
        AceType::ACCESS_DENIED_CALLBACK_OBJECT_ACE_TYPE => 0x0C,
        AceType::SYSTEM_AUDIT_CALLBACK_ACE_TYPE => 0x0D,
        AceType::SYSTEM_AUDIT_CALLBACK_OBJECT_ACE_TYPE => 0x0F,
        AceType::SYSTEM_MANDATORY_LABEL_ACE_TYPE => 0x11,
        AceType::SYSTEM_RESOURCE_ATTRIBUTE_ACE_TYPE => 0x12,
        AceType::SYSTEM_SCOPED_POLICY_ID_ACE_TYPE => 0x13,
    }
}

/// Whether `raw` is the tag of some recognised ACE type.
pub open spec fn is_ace_tag(raw: u8) -> bool {
    exists|t: AceType| ace_type_tag(t) == raw
}

/// Whether entries of this type carry the object-type presence flags and
/// the optional GUIDs before their SID.
pub open spec fn is_object_ace(t: AceType) -> bool {
    match t {
        AceType::ACCESS_ALLOWED_OBJECT_ACE_TYPE
        | AceType::ACCESS_DENIED_OBJECT_ACE_TYPE
        | AceType::SYSTEM_AUDIT_OBJECT_ACE_TYPE
        | AceType::ACCESS_ALLOWED_CALLBACK_OBJECT_ACE_TYPE
        | AceType::ACCESS_DENIED_CALLBACK_OBJECT_ACE_TYPE
        | AceType::SYSTEM_AUDIT_CALLBACK_OBJECT_ACE_TYPE => true,
        _ => false,
    }
}

impl AceType {
    /// Decode a tag byte; `None` for a tag outside the recognised set.
    pub fn from_raw(raw: u8) -> (r: Option<AceType>)
        ensures
            r matches Some(t) ==> ace_type_tag(t) == raw,
            r is None <==> !is_ace_tag(raw),
    {
        let r = match raw {
            0x00 => Some(AceType::ACCESS_ALLOWED_ACE_TYPE),
            0x01 => Some(AceType::ACCESS_DENIED_ACE_TYPE),
            0x02 => Some(AceType::SYSTEM_AUDIT_ACE_TYPE),
            0x05 => Some(AceType::ACCESS_ALLOWED_OBJECT_ACE_TYPE),
            0x06 => Some(AceType::ACCESS_DENIED_OBJECT_ACE_TYPE),
            0x07 => Some(AceType::SYSTEM_AUDIT_OBJECT_ACE_TYPE),
            0x09 => Some(AceType::ACCESS_ALLOWED_CALLBACK_ACE_TYPE),
            0x0A => Some(AceType::ACCESS_DENIED_CALLBACK_ACE_TYPE),
            0x0B => Some(AceType::ACCESS_ALLOWED_CALLBACK_OBJECT_ACE_TYPE),
            0x0C => Some(AceType::ACCESS_DENIED_CALLBACK_OBJECT_ACE_TYPE),
            0x0D => Some(AceType::SYSTEM_AUDIT_CALLBACK_ACE_TYPE),
            0x0F => Some(AceType::SYSTEM_AUDIT_CALLBACK_OBJECT_ACE_TYPE),
            0x11 => Some(AceType::SYSTEM_MANDATORY_LABEL_ACE_TYPE),
            0x12 => Some(AceType::SYSTEM_RESOURCE_ATTRIBUTE_ACE_TYPE),
            0x13 => Some(AceType::SYSTEM_SCOPED_POLICY_ID_ACE_TYPE),
            _ => None,
        };
        proof {
            if let Some(t) = r {
                assert(ace_type_tag(t) == raw);
            } else {
                assert forall|t: AceType| ace_type_tag(t) != raw by {}
            }
        }
        r
    }

    /// The tag byte of this type.
    pub fn as_raw(&self) -> (r: u8)
        ensures
            r == ace_type_tag(*self),
    {
        match self {
            AceType::ACCESS_ALLOWED_ACE_TYPE => 0x00,
            AceType::ACCESS_DENIED_ACE_TYPE => 0x01,
            AceType::SYSTEM_AUDIT_ACE_TYPE => 0x02,
            AceType::ACCESS_ALLOWED_OBJECT_ACE_TYPE => 0x05,
            AceType::ACCESS_DENIED_OBJECT_ACE_TYPE => 0x06,
            AceType::SYSTEM_AUDIT_OBJECT_ACE_TYPE => 0x07,
            AceType::ACCESS_ALLOWED_CALLBACK_ACE_TYPE => 0x09,
            AceType::ACCESS_DENIED_CALLBACK_ACE_TYPE => 0x0A,
            AceType::ACCESS_ALLOWED_CALLBACK_OBJECT_ACE_TYPE => 0x0B,
            AceType::ACCESS_DENIED_CALLBACK_OBJECT_ACE_TYPE => 0x0C,
            AceType::SYSTEM_AUDIT_CALLBACK_ACE_TYPE => 0x0D,
            AceType::SYSTEM_AUDIT_CALLBACK_OBJECT_ACE_TYPE => 0x0F,
            AceType::SYSTEM_MANDATORY_LABEL_ACE_TYPE => 0x11,
            AceType::SYSTEM_RESOURCE_ATTRIBUTE_ACE_TYPE => 0x12,
            AceType::SYSTEM_SCOPED_POLICY_ID_ACE_TYPE => 0x13,
        }
    }
}

/// ACL revision levels.
#[allow(non_camel_case_types)]
#[derive(Clone, Copy, Debug, PartialEq, Eq, Structural, Hash)]
pub enum AclRevision {
    ACL_REVISION,
    ACL_REVISION_DS,
}

pub const ACL_REVISION: u8 = 2;
pub const ACL_REVISION_DS: u8 = 4;

pub open spec fn acl_revision_byte(r: AclRevision) -> u8 {
    match r {
        AclRevision::ACL_REVISION => ACL_REVISION,
        AclRevision::ACL_REVISION_DS => ACL_REVISION_DS,
    }
}

impl AclRevision {
    /// Decode a revision byte; `None` for any other value.
    pub fn from_raw(raw: u8) -> (r: Option<AclRevision>)
        ensures
            r matches Some(v) ==> acl_revision_byte(v) == raw,
            r is None <==> raw != ACL_REVISION && raw != ACL_REVISION_DS,
    {
        if raw == ACL_REVISION {
            Some(AclRevision::ACL_REVISION)
        } else if raw == ACL_REVISION_DS {
            Some(AclRevision::ACL_REVISION_DS)
        } else {
            None
        }
    }
}

/// Forms a trustee can take.
#[allow(non_camel_case_types)]
#[derive(Clone, Copy, Debug, PartialEq, Eq, Structural, Hash)]
pub enum TrusteeForm {
    TRUSTEE_IS_SID,
    TRUSTEE_IS_NAME,
    TRUSTEE_BAD_FORM,
    TRUSTEE_IS_OBJECTS_AND_SID,
    TRUSTEE_IS_OBJECTS_AND_NAME,
}

pub open spec fn trustee_form_value(f: TrusteeForm) -> u32 {
    match f {
        TrusteeForm::TRUSTEE_IS_SID => 0,
        TrusteeForm::TRUSTEE_IS_NAME => 1,
        TrusteeForm::TRUSTEE_BAD_FORM => 2,
        TrusteeForm::TRUSTEE_IS_OBJECTS_AND_SID => 3,
        TrusteeForm::TRUSTEE_IS_OBJECTS_AND_NAME => 4,
    }
}

impl TrusteeForm {
    /// Decode a form value; `None` for a value above the last form.
    pub fn from_raw(raw: u32) -> (r: Option<TrusteeForm>)
        ensures
            r matches Some(f) ==> trustee_form_value(f) == raw,
            r is None <==> raw > 4,
    {
        match raw {
            0 => Some(TrusteeForm::TRUSTEE_IS_SID),
            1 => Some(TrusteeForm::TRUSTEE_IS_NAME),
            2 => Some(TrusteeForm::TRUSTEE_BAD_FORM),
            3 => Some(TrusteeForm::TRUSTEE_IS_OBJECTS_AND_SID),
            4 => Some(TrusteeForm::TRUSTEE_IS_OBJECTS_AND_NAME),
            _ => None,
        }
    }

    pub fn as_raw(&self) -> (r: u32)
        ensures
            r == trustee_form_value(*self),
    {
        match self {
            TrusteeForm::TRUSTEE_IS_SID => 0,
            TrusteeForm::TRUSTEE_IS_NAME => 1,
            TrusteeForm::TRUSTEE_BAD_FORM => 2,
            TrusteeForm::TRUSTEE_IS_OBJECTS_AND_SID => 3,
            TrusteeForm::TRUSTEE_IS_OBJECTS_AND_NAME => 4,
        }
    }
}

/// Kinds of account an account lookup reports.
#[derive(Clone, Copy, Debug, PartialEq, Eq, Structural, Hash)]
pub enum SidNameUse {
    SidTypeUser,
    SidTypeGroup,
    SidTypeDomain,
    SidTypeAlias,
    SidTypeWellKnownGroup,
    SidTypeDeletedAccount,
    SidTypeInvalid,
    SidTypeUnknown,
    SidTypeComputer,
    SidTypeLabel,
    SidTypeLogonSession,
}

pub open spec fn sid_name_use_value(u: SidNameUse) -> i32 {
    match u {
        SidNameUse::SidTypeUser => 1,
        SidNameUse::SidTypeGroup => 2,
        SidNameUse::SidTypeDomain => 3,
        SidNameUse::SidTypeAlias => 4,
        SidNameUse::SidTypeWellKnownGroup => 5,
        SidNameUse::SidTypeDeletedAccount => 6,
        SidNameUse::SidTypeInvalid => 7,
        SidNameUse::SidTypeUnknown => 8,
        SidNameUse::SidTypeComputer => 9,
        SidNameUse::SidTypeLabel => 10,
        SidNameUse::SidTypeLogonSession => 11,
    }
}

impl SidNameUse {
    /// Decode an account kind; `None` outside the values the platform
    /// defines.
    pub fn from_raw(raw: i32) -> (r: Option<SidNameUse>)
        ensures
            r matches Some(u) ==> sid_name_use_value(u) == raw,
            r is None <==> !(1 <= raw <= 11),
    {
        match raw {
            1 => Some(SidNameUse::SidTypeUser),
            2 => Some(SidNameUse::SidTypeGroup),
            3 => Some(SidNameUse::SidTypeDomain),
            4 => Some(SidNameUse::SidTypeAlias),
            5 => Some(SidNameUse::SidTypeWellKnownGroup),
            6 => Some(SidNameUse::SidTypeDeletedAccount),
            7 => Some(SidNameUse::SidTypeInvalid),
            8 => Some(SidNameUse::SidTypeUnknown),
            9 => Some(SidNameUse::SidTypeComputer),
            10 => Some(SidNameUse::SidTypeLabel),
            11 => Some(SidNameUse::SidTypeLogonSession),
            _ => None,
        }
    }
}

// Trustee types.
pub const TRUSTEE_IS_UNKNOWN: u32 = 0;
pub const TRUSTEE_IS_USER: u32 = 1;
pub const TRUSTEE_IS_GROUP: u32 = 2;
pub const TRUSTEE_IS_DOMAIN: u32 = 3;
pub const TRUSTEE_IS_ALIAS: u32 = 4;
pub const TRUSTEE_IS_WELL_KNOWN_GROUP: u32 = 5;
pub const TRUSTEE_IS_DELETED: u32 = 6;
pub const TRUSTEE_IS_INVALID: u32 = 7;
pub const TRUSTEE_IS_COMPUTER: u32 = 8;

// Multiple-trustee operations.
pub const NO_MULTIPLE_TRUSTEE: u32 = 0;
pub const TRUSTEE_IS_IMPERSONATE: u32 = 1;

// Secured-object types.
pub const SE_UNKNOWN_OBJECT_TYPE: u32 = 0;
pub const SE_FILE_OBJECT: u32 = 1;
pub const SE_SERVICE: u32 = 2;
pub const SE_PRINTER: u32 = 3;
pub const SE_REGISTRY_KEY: u32 = 4;
pub const SE_LMSHARE: u32 = 5;
pub const SE_KERNEL_OBJECT: u32 = 6;
pub const SE_WINDOW_OBJECT: u32 = 7;
pub const SE_DS_OBJECT: u32 = 8;
pub const SE_DS_OBJECT_ALL: u32 = 9;
pub const SE_PROVIDER_DEFINED_OBJECT: u32 = 10;
pub const SE_WMIGUID_OBJECT: u32 = 11;
pub const SE_REGISTRY_WOW64_32KEY: u32 = 12;
pub const SE_REGISTRY_WOW64_64KEY: u32 = 13;

// ACE flag bits.
pub const OBJECT_INHERIT_ACE: u8 = 0x01;
pub const CONTAINER_INHERIT_ACE: u8 = 0x02;
pub const NO_PROPAGATE_INHERIT_ACE: u8 = 0x04;
pub const INHERIT_ONLY_ACE: u8 = 0x08;
pub const INHERITED_ACE: u8 = 0x10;
pub const SUCCESSFUL_ACCESS_ACE_FLAG: u8 = 0x40;
pub const FAILED_ACCESS_ACE_FLAG: u8 = 0x80;
/// Every recognised ACE flag bit.
pub const ACE_FLAGS_ALL: u8 = 0xDF;

// Presence bits in the body of object ACEs.
pub const ACE_OBJECT_TYPE_PRESENT: u32 = 0x1;
pub const ACE_INHERITED_OBJECT_TYPE_PRESENT: u32 = 0x2;

// Security-information bits.
pub const OWNER_SECURITY_INFORMATION: u32 = 0x0000_0001;
pub const GROUP_SECURITY_INFORMATION: u32 = 0x0000_0002;
pub const DACL_SECURITY_INFORMATION: u32 = 0x0000_0004;
pub const SACL_SECURITY_INFORMATION: u32 = 0x0000_0008;
pub const LABEL_SECURITY_INFORMATION: u32 = 0x0000_0010;
pub const ATTRIBUTE_SECURITY_INFORMATION: u32 = 0x0000_0020;
pub const SCOPE_SECURITY_INFORMATION: u32 = 0x0000_0040;
pub const BACKUP_SECURITY_INFORMATION: u32 = 0x0001_0000;
pub const PROTECTED_DACL_SECURITY_INFORMATION: u32 = 0x8000_0000;
pub const PROTECTED_SACL_SECURITY_INFORMATION: u32 = 0x4000_0000;
pub const UNPROTECTED_DACL_SECURITY_INFORMATION: u32 = 0x2000_0000;
pub const UNPROTECTED_SACL_SECURITY_INFORMATION: u32 = 0x1000_0000;

// Access rights.
pub const GENERIC_READ: u32 = 0x8000_0000;
pub const GENERIC_WRITE: u32 = 0x4000_0000;
pub const GENERIC_EXECUTE: u32 = 0x2000_0000;
pub const GENERIC_ALL: u32 = 0x1000_0000;
pub const MAXIMUM_ALLOWED: u32 = 0x0200_0000;
pub const ACCESS_SYSTEM_SECURITY: u32 = 0x0100_0000;
pub const DELETE: u32 = 0x0001_0000;
pub const READ_CONTROL: u32 = 0x0002_0000;
pub const WRITE_DAC: u32 = 0x0004_0000;
pub const WRITE_OWNER: u32 = 0x0008_0000;
pub const SYNCHRONIZE: u32 = 0x0010_0000;
pub const STANDARD_RIGHTS_REQUIRED: u32 = 0x000F_0000;
pub const STANDARD_RIGHTS_READ: u32 = READ_CONTROL;
pub const STANDARD_RIGHTS_WRITE: u32 = READ_CONTROL;
pub const STANDARD_RIGHTS_EXECUTE: u32 = READ_CONTROL;
pub const STANDARD_RIGHTS_ALL: u32 = 0x001F_0000;
pub const SPECIFIC_RIGHTS_ALL: u32 = 0x0000_FFFF;
pub const FILE_ALL_ACCESS: u32 = 0x001F_01FF;
pub const FILE_GENERIC_READ: u32 = 0x0012_0089;
pub const FILE_GENERIC_WRITE: u32 = 0x0012_0116;
pub const FILE_GENERIC_EXECUTE: u32 = 0x0012_00A0;
pub const KEY_ALL_ACCESS: u32 = 0x000F_003F;
pub const KEY_READ: u32 = 0x0002_0019;
pub const KEY_WRITE: u32 = 0x0002_0006;
pub const KEY_EXECUTE: u32 = 0x0002_0019;
pub const SYSTEM_MANDATORY_LABEL_NO_WRITE_UP: u32 = 0x1;
pub const SYSTEM_MANDATORY_LABEL_NO_READ_UP: u32 = 0x2;
pub const SYSTEM_MANDATORY_LABEL_NO_EXECUTE_UP: u32 = 0x4;

// Local-allocation flags.
pub const LMEM_FIXED: u32 = 0x0000;
pub const LMEM_MOVEABLE: u32 = 0x0002;
pub const LMEM_NOCOMPACT: u32 = 0x0010;
pub const LMEM_NODISCARD: u32 = 0x0020;
pub const LMEM_ZEROINIT: u32 = 0x0040;
pub const LMEM_DISCARDABLE: u32 = 0x0F00;

// Security-descriptor control bits.
pub const SE_OWNER_DEFAULTED: u16 = 0x0001;
pub const SE_GROUP_DEFAULTED: u16 = 0x0002;
pub const SE_DACL_PRESENT: u16 = 0x0004;
pub const SE_DACL_DEFAULTED: u16 = 0x0008;
pub const SE_SACL_PRESENT: u16 = 0x0010;
pub const SE_SACL_DEFAULTED: u16 = 0x0020;
pub const SE_DACL_PROTECTED: u16 = 0x1000;
pub const SE_SACL_PROTECTED: u16 = 0x2000;
pub const SE_SELF_RELATIVE: u16 = 0x8000;

// Platform error codes the model reports.
pub const ERROR_INVALID_PARAMETER: i32 = 87;
pub const ERROR_INSUFFICIENT_BUFFER: i32 = 122;
pub const ERROR_INVALID_SID: i32 = 1337;
pub const ERROR_ALLOTTED_SPACE_EXCEEDED: i32 = 1344;

} // verus!
