//! Request validation: role and user creation and update requests, with
//! the reserved-name, length, membership, and role-kind rules.

use crate::auth::Permission;
use crate::auth::Role;
use crate::auth::RoleType;
use crate::error::BichonError;
use crate::error::ErrorCode;
use crate::extract::trim_back;
use crate::text::is_ws;
use crate::text::lower_bytes;
use crate::text::lower_vec;
use vstd::prelude::*;
use vstd::string::StringExecFns;
use vstd::string::StringSliceAdditionalSpecFns;

verus! {

/// Leading whitespace removed.
pub open spec fn trim_front(s: Seq<u8>) -> Seq<u8>
    decreases s.len(),
{
    if s.len() > 0 && is_ws(s[0]) {
        trim_front(s.drop_first())
    } else {
        s
    }
}

/// Surrounding whitespace removed.
pub open spec fn trimmed(s: Seq<u8>) -> Seq<u8> {
    trim_back(trim_front(s))
}

/// Computes the trimmed bytes of a string.
pub fn trim_bytes(s: &str) -> (r: Vec<u8>)
    ensures
        r@ == trimmed(s.spec_bytes()),
{
    let b = s.as_bytes();
    let n = b.len();
    proof {
        assert(b@.subrange(0, n as int) =~= b@);
    }
    let mut lo: usize = 0;
    while lo < n && (b[lo] == 32 || b[lo] == 9 || b[lo] == 10 || b[lo] == 13)
        invariant
            n == b@.len(),
            lo <= n,
            trim_front(b@) == trim_front(b@.subrange(lo as int, n as int)),
        decreases n - lo,
    {
        proof {
            assert(b@.subrange(lo as int, n as int)[0] == b@[lo as int]);
            assert(b@.subrange(lo as int, n as int).drop_first() =~= b@.subrange(
                lo + 1,
                n as int,
            ));
        }
        lo = lo + 1;
    }
    proof {
        if lo < n {
            assert(b@.subrange(lo as int, n as int)[0] == b@[lo as int]);
            assert(trim_front(b@.subrange(lo as int, n as int)) == b@.subrange(
                lo as int,
                n as int,
            ));
        } else {
            assert(b@.subrange(lo as int, n as int) =~= Seq::<u8>::empty());
            assert(trim_front(b@) =~= b@.subrange(lo as int, n as int));
        }
        assert(b@.subrange(0, n as int) =~= b@);
    }
    let mut hi: usize = n;
    while hi > lo && (b[hi - 1] == 32 || b[hi - 1] == 9 || b[hi - 1] == 10 || b[hi - 1] == 13)
        invariant
            n == b@.len(),
            lo <= hi <= n,
            trim_front(b@) == b@.subrange(lo as int, n as int),
            trim_back(b@.subrange(lo as int, n as int)) == trim_back(
                b@.subrange(lo as int, hi as int),
            ),
        decreases hi,
    {
        proof {
            assert(b@.subrange(lo as int, hi as int).last() == b@[hi - 1]);
            assert(b@.subrange(lo as int, hi as int).drop_last() =~= b@.subrange(
                lo as int,
                hi - 1,
            ));
        }
        hi = hi - 1;
    }
    proof {
        if hi > lo {
            assert(b@.subrange(lo as int, hi as int).last() == b@[hi - 1]);
            assert(trim_back(b@.subrange(lo as int, hi as int)) == b@.subrange(
                lo as int,
                hi as int,
            ));
        } else {
            assert(b@.subrange(lo as int, hi as int) =~= Seq::<u8>::empty());
        }
    }
    let mut out: Vec<u8> = Vec::new();
    let mut k: usize = lo;
    while k < hi
        invariant
            lo <= k <= hi <= b@.len(),
            out@ == b@.subrange(lo as int, k as int),
        decreases hi - k,
    {
        out.push(b[k]);
        proof {
            assert(b@.subrange(lo as int, k + 1) =~= b@.subrange(lo as int, k as int).push(
                b@[k as int],
            ));
        }
        k = k + 1;
    }
    out
}

/// Byte equality of two slices.
pub fn bytes_eq(a: &[u8], b: &[u8]) -> (r: bool)
    ensures
        r == (a@ == b@),
{
    if a.len() != b.len() {
        return false;
    }
    let mut i: usize = 0;
    while i < a.len()
        invariant
            a@.len() == b@.len(),
            i <= a@.len(),
            forall|k: int| 0 <= k < i ==> a@[k] == b@[k],
        decreases a@.len() - i,
    {
        if a[i] != b[i] {
            return false;
        }
        i = i + 1;
    }
    proof {
        assert(a@ =~= b@);
    }
    true
}

/// Whether a trimmed, case-folded name is one of the reserved role names.
pub open spec fn reserved_role_name(name: Seq<u8>) -> bool {
    ||| lower_bytes(trimmed(name)) == "admin"@.map_values(|c: char| c as u8)
    ||| lower_bytes(trimmed(name)) == "manager"@.map_values(|c: char| c as u8)
    ||| lower_bytes(trimmed(name)) == "viewer"@.map_values(|c: char| c as u8)
}

fn is_reserved_role_name(name: &str) -> (r: bool)
    ensures
        r == reserved_role_name(name.spec_bytes()),
{
    let t = trim_bytes(name);
    let folded = lower_vec(t.as_slice());
    proof {
        reveal_strlit("admin");
        reveal_strlit("manager");
        reveal_strlit("viewer");
        assert("admin"@.map_values(|c: char| c as u8) =~= seq![97u8, 100u8, 109u8, 105u8, 110u8]);
        assert("manager"@.map_values(|c: char| c as u8) =~= seq![
            109u8,
            97u8,
            110u8,
            97u8,
            103u8,
            101u8,
            114u8,
        ]);
        assert("viewer"@.map_values(|c: char| c as u8) =~= seq![
            118u8,
            105u8,
            101u8,
            119u8,
            101u8,
            114u8,
        ]);
    }
    let mut admin: Vec<u8> = Vec::new();
    admin.push(97);
    admin.push(100);
    admin.push(109);
    admin.push(105);
    admin.push(110);
    proof {
        assert(admin@ =~= seq![97u8, 100u8, 109u8, 105u8, 110u8]);
    }
    if bytes_eq(folded.as_slice(), admin.as_slice()) {
        return true;
    }
    let mut manager: Vec<u8> = Vec::new();
    manager.push(109);
    manager.push(97);
    manager.push(110);
    manager.push(97);
    manager.push(103);
    manager.push(101);
    manager.push(114);
    proof {
        assert(manager@ =~= seq![109u8, 97u8, 110u8, 97u8, 103u8, 101u8, 114u8]);
    }
    if bytes_eq(folded.as_slice(), manager.as_slice()) {
        return true;
    }
    let mut viewer: Vec<u8> = Vec::new();
    viewer.push(118);
    viewer.push(105);
    viewer.push(101);
    viewer.push(119);
    viewer.push(101);
    viewer.push(114);
    proof {
        assert(viewer@ =~= seq![118u8, 105u8, 101u8, 119u8, 101u8, 114u8]);
    }
    bytes_eq(folded.as_slice(), viewer.as_slice())
}

/// Which permissions a role of each kind may carry: account-scoped roles
/// hold only the per-account permissions; global roles hold any.
pub open spec fn allowed_for_role_type(rt: RoleType, p: Permission) -> bool {
    match rt {
        RoleType::Global => true,
        RoleType::Account => {
            ||| p == Permission::DataRead
            ||| p == Permission::DataDelete
            ||| p == Permission::DataRawDownload
            ||| p == Permission::DataExportBatch
            ||| p == Permission::DataManage
            ||| p == Permission::AccountManage
            ||| p == Permission::AccountReadDetails
        },
    }
}

fn allowed_for_role_type_exec(rt: RoleType, p: Permission) -> (r: bool)
    ensures
        r == allowed_for_role_type(rt, p),
{
    match rt {
        RoleType::Global => true,
        RoleType::Account => p == Permission::DataRead || p == Permission::DataDelete || p
            == Permission::DataRawDownload || p == Permission::DataExportBatch || p
            == Permission::DataManage || p == Permission::AccountManage || p
            == Permission::AccountReadDetails,
    }
}

/// A request to create a role.
pub struct RoleCreateRequest {
    pub name: String,
    pub role_type: RoleType,
    pub description: Option<String>,
    pub permissions: Vec<Permission>,
}

impl RoleCreateRequest {
    /// What a valid role-creation request is: a non-blank, non-reserved
    /// name, at least one permission, and every permission allowed for the
    /// role's kind.
    pub open spec fn valid(&self) -> bool {
        &&& trimmed(crate::query::str_bytes(self.name@)).len() > 0
        &&& !reserved_role_name(crate::query::str_bytes(self.name@))
        &&& self.permissions@.len() > 0
        &&& forall|i: int|
            0 <= i < self.permissions@.len() ==> allowed_for_role_type(
                self.role_type,
                #[trigger] self.permissions@[i],
            )
    }

    /// Accepts exactly the valid requests.
    pub fn validate(&self) -> (r: Result<(), BichonError>)
        ensures
            r is Ok <==> self.valid(),
            r matches Err(e) ==> e.code == ErrorCode::InvalidParameter,
    {
        let t = trim_bytes(self.name.as_str());
        if t.len() == 0 {
            return Result::Err(
                BichonError::new(
                    ErrorCode::InvalidParameter,
                    String::from_str("the role name is empty or only whitespace"),
                ),
            );
        }
        if is_reserved_role_name(self.name.as_str()) {
            return Result::Err(
                BichonError::new(
                    ErrorCode::InvalidParameter,
                    String::from_str("the name is reserved for built-in roles"),
                ),
            );
        }
        if self.permissions.len() == 0 {
            return Result::Err(
                BichonError::new(
                    ErrorCode::InvalidParameter,
                    String::from_str("a role needs at least one permission"),
                ),
            );
        }
        let mut i: usize = 0;
        while i < self.permissions.len()
            invariant
                i <= self.permissions@.len(),
                forall|k: int|
                    0 <= k < i ==> allowed_for_role_type(
                        self.role_type,
                        #[trigger] self.permissions@[k],
                    ),
            decreases self.permissions@.len() - i,
        {
            if !allowed_for_role_type_exec(self.role_type, self.permissions[i]) {
                return Result::Err(
                    BichonError::new(
                        ErrorCode::InvalidParameter,
                        String::from_str("a permission is not allowed for this role kind"),
                    ),
                );
            }
            i = i + 1;
        }
        Result::Ok(())
    }
}

/// A request to update a role.
pub struct RoleUpdateRequest {
    pub name: Option<String>,
    pub description: Option<String>,
    pub permissions: Option<Vec<Permission>>,
}

impl RoleUpdateRequest {
    /// What a valid role update is: at least one field present; a present
    /// name non-blank and non-reserved; a present permission list
    /// non-empty.
    pub open spec fn valid(&self) -> bool {
        &&& (self.name is Some || self.description is Some || self.permissions is Some)
        &&& (self.name matches Some(n) ==> trimmed(crate::query::str_bytes(n@)).len() > 0
            && !reserved_role_name(crate::query::str_bytes(n@)))
        &&& (self.permissions matches Some(p) ==> p@.len() > 0)
    }

    /// Accepts exactly the valid updates.
    pub fn validate(&self) -> (r: Result<(), BichonError>)
        ensures
            r is Ok <==> self.valid(),
            r matches Err(e) ==> e.code == ErrorCode::InvalidParameter,
    {
        if self.name.is_none() && self.description.is_none() && self.permissions.is_none() {
            return Result::Err(
                BichonError::new(
                    ErrorCode::InvalidParameter,
                    String::from_str("an update must name at least one field"),
                ),
            );
        }
        if let Some(n) = &self.name {
            let t = trim_bytes(n.as_str());
            if t.len() == 0 {
                return Result::Err(
                    BichonError::new(
                        ErrorCode::InvalidParameter,
                        String::from_str("the role name is empty or only whitespace"),
                    ),
                );
            }
            if is_reserved_role_name(n.as_str()) {
                return Result::Err(
                    BichonError::new(
                        ErrorCode::InvalidParameter,
                        String::from_str("the name is reserved for built-in roles"),
                    ),
                );
            }
        }
        if let Some(p) = &self.permissions {
            if p.len() == 0 {
                return Result::Err(
                    BichonError::new(
                        ErrorCode::InvalidParameter,
                        String::from_str("a role cannot lose all permissions"),
                    ),
                );
            }
        }
        Result::Ok(())
    }
}

/// A request to create a user.
#[derive(Clone, Debug, PartialEq, Eq)]
pub struct UserCreateRequest {
    pub username: String,
    pub email: String,
    pub password: String,
    pub global_roles: Vec<u64>,
    pub account_access_map: Vec<(u64, u64)>,
    /// The profile picture, base64 encoded.
    pub avatar_base64: Option<String>,
    pub description: Option<String>,
    pub theme: Option<String>,
    pub language: Option<String>,
}

/// Whether a theme choice is one the interface offers.
pub open spec fn allowed_theme(s: Seq<char>) -> bool {
    s == "light"@ || s == "dark"@
}

/// Whether a language choice is one the interface is translated to.
pub open spec fn allowed_language(s: Seq<char>) -> bool {
    ||| s == "ar"@
    ||| s == "da"@
    ||| s == "de"@
    ||| s == "en"@
    ||| s == "es"@
    ||| s == "fi"@
    ||| s == "fr"@
    ||| s == "it"@
    ||| s == "jp"@
    ||| s == "ko"@
    ||| s == "nl"@
    ||| s == "no"@
    ||| s == "pl"@
    ||| s == "pt"@
    ||| s == "ru"@
    ||| s == "sv"@
    ||| s == "zh"@
    ||| s == "zh-tw"@
}

fn is_allowed_theme(s: &String) -> (r: bool)
    ensures
        r == allowed_theme(s@),
{
    crate::query::string_eq(s, &String::from_str("light")) || crate::query::string_eq(
        s,
        &String::from_str("dark"),
    )
}

fn is_allowed_language(s: &String) -> (r: bool)
    ensures
        r == allowed_language(s@),
{
    crate::query::string_eq(s, &String::from_str("ar")) || crate::query::string_eq(
        s,
        &String::from_str("da"),
    ) || crate::query::string_eq(s, &String::from_str("de")) || crate::query::string_eq(
        s,
        &String::from_str("en"),
    ) || crate::query::string_eq(s, &String::from_str("es")) || crate::query::string_eq(
        s,
        &String::from_str("fi"),
    ) || crate::query::string_eq(s, &String::from_str("fr")) || crate::query::string_eq(
        s,
        &String::from_str("it"),
    ) || crate::query::string_eq(s, &String::from_str("jp")) || crate::query::string_eq(
        s,
        &String::from_str("ko"),
    ) || crate::query::string_eq(s, &String::from_str("nl")) || crate::query::string_eq(
        s,
        &String::from_str("no"),
    ) || crate::query::string_eq(s, &String::from_str("pl")) || crate::query::string_eq(
        s,
        &String::from_str("pt"),
    ) || crate::query::string_eq(s, &String::from_str("ru")) || crate::query::string_eq(
        s,
        &String::from_str("sv"),
    ) || crate::query::string_eq(s, &String::from_str("zh")) || crate::query::string_eq(
        s,
        &String::from_str("zh-tw"),
    )
}

/// The kind of the role with this id in a role table, where present.
pub open spec fn role_type_of(roles: Seq<Role>, id: u64) -> Option<RoleType>
    decreases roles.len(),
{
    if roles.len() == 0 {
        None
    } else if roles[0].id == id {
        Some(roles[0].role_type)
    } else {
        role_type_of(roles.drop_first(), id)
    }
}

pub fn role_type_of_exec(roles: &Vec<Role>, id: u64) -> (r: Option<RoleType>)
    ensures
        r == role_type_of(roles@, id),
{
    proof {
        assert(roles@.subrange(0, roles@.len() as int) =~= roles@);
    }
    let mut i: usize = 0;
    while i < roles.len()
        invariant
            i <= roles@.len(),
            role_type_of(roles@, id) == role_type_of(
                roles@.subrange(i as int, roles@.len() as int),
                id,
            ),
        decreases roles@.len() - i,
    {
        let ghost tail = roles@.subrange(i as int, roles@.len() as int);
        proof {
            assert(tail[0] == roles@[i as int]);
            assert(tail.drop_first() =~= roles@.subrange(i + 1, roles@.len() as int));
        }
        if roles[i].id == id {
            return Some(roles[i].role_type);
        }
        i = i + 1;
    }
    proof {
        assert(roles@.subrange(roles@.len() as int, roles@.len() as int) =~= Seq::<Role>::empty());
    }
    None
}

impl UserCreateRequest {
    /// What a valid user-creation request is: a username of five to
    /// thirty-two bytes, a password of eight to two hundred and fifty-six,
    /// at least one global role, every global role a known global role,
    /// and every mapped role a known account role on a known account.
    pub open spec fn valid(&self, roles: Seq<Role>, account_ids: Seq<u64>) -> bool {
        &&& 5 <= crate::query::str_bytes(self.username@).len() <= 32
        &&& 8 <= crate::query::str_bytes(self.password@).len() <= 256
        &&& self.global_roles@.len() > 0
        &&& (self.theme matches Some(t) ==> allowed_theme(t@))
        &&& (self.language matches Some(l) ==> allowed_language(l@))
        &&& (self.description matches Some(d) ==> crate::query::str_bytes(d@).len() <= 256)
        &&& (self.avatar_base64 matches Some(a) ==> crate::ingest::b64_std_decode_of(a@) is Some)
        &&& forall|i: int|
            0 <= i < self.global_roles@.len() ==> role_type_of(
                roles,
                #[trigger] self.global_roles@[i],
            ) == Some(RoleType::Global)
        &&& forall|i: int|
            0 <= i < self.account_access_map@.len() ==> account_ids.contains(
                (#[trigger] self.account_access_map@[i]).0,
            ) && role_type_of(roles, self.account_access_map@[i].1) == Some(RoleType::Account)
    }

    /// Accepts exactly the valid requests against the known roles and
    /// accounts.
    pub fn validate(&self, roles: &Vec<Role>, account_ids: &Vec<u64>) -> (r: Result<
        (),
        BichonError,
    >)
        ensures
            r is Ok <==> self.valid(roles@, account_ids@),
            r matches Err(e) ==> e.code == ErrorCode::InvalidParameter,
    {
        let ulen = self.username.as_str().as_bytes().len();
        if ulen < 5 || ulen > 32 {
            return Result::Err(
                BichonError::new(
                    ErrorCode::InvalidParameter,
                    String::from_str("the username must be five to thirty-two bytes"),
                ),
            );
        }
        let plen = self.password.as_str().as_bytes().len();
        if plen < 8 || plen > 256 {
            return Result::Err(
                BichonError::new(
                    ErrorCode::InvalidParameter,
                    String::from_str("the password must be eight to two hundred fifty-six bytes"),
                ),
            );
        }
        if self.global_roles.len() == 0 {
            return Result::Err(
                BichonError::new(
                    ErrorCode::InvalidParameter,
                    String::from_str("at least one global role must be assigned"),
                ),
            );
        }
        match &self.theme {
            Some(t) => {
                if !is_allowed_theme(t) {
                    return Result::Err(
                        BichonError::new(
                            ErrorCode::InvalidParameter,
                            String::from_str("the theme is not one the interface offers"),
                        ),
                    );
                }
            },
            None => {},
        }
        match &self.language {
            Some(l) => {
                if !is_allowed_language(l) {
                    return Result::Err(
                        BichonError::new(
                            ErrorCode::InvalidParameter,
                            String::from_str("the language is not one the interface offers"),
                        ),
                    );
                }
            },
            None => {},
        }
        match &self.description {
            Some(d) => {
                if d.as_str().as_bytes().len() > 256 {
                    return Result::Err(
                        BichonError::new(
                            ErrorCode::InvalidParameter,
                            String::from_str(
                                "the description cannot exceed two hundred fifty-six bytes",
                            ),
                        ),
                    );
                }
            },
            None => {},
        }
        match &self.avatar_base64 {
            Some(a) => {
                if crate::ingest::b64_std_decode(a.as_str()).is_none() {
                    return Result::Err(
                        BichonError::new(
                            ErrorCode::InvalidParameter,
                            String::from_str("the avatar is not valid base64"),
                        ),
                    );
                }
            },
            None => {},
        }
        let mut i: usize = 0;
        while i < self.global_roles.len()
            invariant
                i <= self.global_roles@.len(),
                forall|k: int|
                    0 <= k < i ==> role_type_of(roles@, #[trigger] self.global_roles@[k]) == Some(
                        RoleType::Global,
                    ),
            decreases self.global_roles@.len() - i,
        {
            let rt = role_type_of_exec(roles, self.global_roles[i]);
            let ok = match rt {
                Some(RoleType::Global) => true,
                _ => false,
            };
            if !ok {
                return Result::Err(
                    BichonError::new(
                        ErrorCode::InvalidParameter,
                        String::from_str("a listed global role is unknown or not global"),
                    ),
                );
            }
            i = i + 1;
        }
        let mut j: usize = 0;
        while j < self.account_access_map.len()
            invariant
                j <= self.account_access_map@.len(),
                forall|k: int|
                    0 <= k < j ==> account_ids@.contains(
                        (#[trigger] self.account_access_map@[k]).0,
                    ) && role_type_of(roles@, self.account_access_map@[k].1) == Some(
                        RoleType::Account,
                    ),
            decreases self.account_access_map@.len() - j,
        {
            if !crate::index::contains_u64(account_ids, self.account_access_map[j].0) {
                return Result::Err(
                    BichonError::new(
                        ErrorCode::InvalidParameter,
                        String::from_str("a mapped account is unknown"),
                    ),
                );
            }
            let rt = role_type_of_exec(roles, self.account_access_map[j].1);
            let ok = match rt {
                Some(RoleType::Account) => true,
                _ => false,
            };
            if !ok {
                return Result::Err(
                    BichonError::new(
                        ErrorCode::InvalidParameter,
                        String::from_str("a mapped role is unknown or not account-scoped"),
                    ),
                );
            }
            j = j + 1;
        }
        Result::Ok(())
    }
}

/// A request to update a user: present fields are validated like their
/// creation counterparts.
pub struct UserUpdateRequest {
    pub username: Option<String>,
    pub password: Option<String>,
    pub global_roles: Option<Vec<u64>>,
    pub account_access_map: Option<Vec<(u64, u64)>>,
}

impl UserUpdateRequest {
    /// What a valid update is: each present field meets the same rule as
    /// at creation, and a present role list is non-empty.
    pub open spec fn valid(&self, roles: Seq<Role>, account_ids: Seq<u64>) -> bool {
        &&& (self.username matches Some(u) ==> 5 <= crate::query::str_bytes(u@).len() <= 32)
        &&& (self.password matches Some(p) ==> 8 <= crate::query::str_bytes(p@).len() <= 256)
        &&& (self.global_roles matches Some(g) ==> g@.len() > 0 && forall|i: int|
            0 <= i < g@.len() ==> role_type_of(roles, #[trigger] g@[i]) == Some(RoleType::Global))
        &&& (self.account_access_map matches Some(m) ==> forall|i: int|
            0 <= i < m@.len() ==> account_ids.contains((#[trigger] m@[i]).0) && role_type_of(
                roles,
                m@[i].1,
            ) == Some(RoleType::Account))
    }

    /// Accepts exactly the valid updates against the known roles and
    /// accounts.
    pub fn validate(&self, roles: &Vec<Role>, account_ids: &Vec<u64>) -> (r: Result<
        (),
        BichonError,
    >)
        ensures
            r is Ok <==> self.valid(roles@, account_ids@),
            r matches Err(e) ==> e.code == ErrorCode::InvalidParameter,
    {
        if let Some(u) = &self.username {
            let ulen = u.as_str().as_bytes().len();
            if ulen < 5 || ulen > 32 {
                return Result::Err(
                    BichonError::new(
                        ErrorCode::InvalidParameter,
                        String::from_str("the username must be five to thirty-two bytes"),
                    ),
                );
            }
        }
        if let Some(p) = &self.password {
            let plen = p.as_str().as_bytes().len();
            if plen < 8 || plen > 256 {
                return Result::Err(
                    BichonError::new(
                        ErrorCode::InvalidParameter,
                        String::from_str(
                            "the password must be eight to two hundred fifty-six bytes",
                        ),
                    ),
                );
            }
        }
        if let Some(g) = &self.global_roles {
            if g.len() == 0 {
                return Result::Err(
                    BichonError::new(
                        ErrorCode::InvalidParameter,
                        String::from_str("a role list cannot be emptied"),
                    ),
                );
            }
            let mut i: usize = 0;
            while i < g.len()
                invariant
                    self.global_roles matches Some(gv) && gv == g,
                    i <= g@.len(),
                    forall|k: int|
                        0 <= k < i ==> role_type_of(roles@, #[trigger] g@[k]) == Some(
                            RoleType::Global,
                        ),
                decreases g@.len() - i,
            {
                let rt = role_type_of_exec(roles, g[i]);
                let ok = match rt {
                    Some(RoleType::Global) => true,
                    _ => false,
                };
                if !ok {
                    return Result::Err(
                        BichonError::new(
                            ErrorCode::InvalidParameter,
                            String::from_str("a listed global role is unknown or not global"),
                        ),
                    );
                }
                i = i + 1;
            }
        }
        if let Some(m) = &self.account_access_map {
            let mut j: usize = 0;
            while j < m.len()
                invariant
                    self.account_access_map matches Some(mv) && mv == m,
                    j <= m@.len(),
                    forall|k: int|
                        0 <= k < j ==> account_ids@.contains((#[trigger] m@[k]).0)
                            && role_type_of(roles@, m@[k].1) == Some(RoleType::Account),
                decreases m@.len() - j,
            {
                if !crate::index::contains_u64(account_ids, m[j].0) {
                    return Result::Err(
                        BichonError::new(
                            ErrorCode::InvalidParameter,
                            String::from_str("a mapped account is unknown"),
                        ),
                    );
                }
                let rt = role_type_of_exec(roles, m[j].1);
                let ok = match rt {
                    Some(RoleType::Account) => true,
                    _ => false,
                };
                if !ok {
                    return Result::Err(
                        BichonError::new(
                            ErrorCode::InvalidParameter,
                            String::from_str("a mapped role is unknown or not account-scoped"),
                        ),
                    );
                }
                j = j + 1;
            }
        }
        Result::Ok(())
    }
}

} // verus!
