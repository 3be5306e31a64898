//! The contract between the permission service, the dialog agent and the
//! settings interface: what a resource is called on the bus and on disk, which
//! programs may ask on behalf of others, and how far each of the system's own
//! applications may ask at all.
use vstd::prelude::*;
use crate::tabla::Tabla;
use crate::texto::{anexar, cadena, caracteres, empieza, empieza_con, iguales, tramo};

verus! {

broadcast use vstd::string::group_string_axioms;

/// The service's well-known name on the system bus.
pub const SERVICE_NAME: &'static str = "ar.net.vasak.os.Permissions";

pub const SERVICE_PATH: &'static str = "/ar/net/vasak/os/Permissions";

pub const SERVICE_INTERFACE: &'static str = "ar.net.vasak.os.Permissions";

/// The dialog agent's interface, on the session bus of whoever is logged in.
pub const AGENT_INTERFACE: &'static str = "ar.net.vasak.os.PermissionAgent";

/// The only executable accepted as the dialog agent. Writing to `/usr/bin`
/// needs root, so no program running as the user can occupy this path.
pub const AGENT_BINARY: &'static str = "/usr/bin/vasak-permissions-agent";

/// The polkit action that guards every change made from the settings screen.
pub const MANAGE_ACTION: &'static str = "ar.net.vasak.os.permissions.manage";

/// Services allowed to ask on behalf of somebody else: absolute paths under
/// `/usr/bin`, which only root can write. The accounts service runs as root
/// and speaks for anybody; the mail sync loop and WirePlumber run as the
/// person and may only speak for processes of their own user.
pub const DELEGATE_BINARIES: [&'static str; 3] = [
    "/usr/bin/vasak-accounts",
    "/usr/bin/vasak-accounts-sync",
    "/usr/bin/wireplumber",
];

/// The delegates' paths.
pub open spec fn delegados() -> Seq<Seq<char>> {
    seq!["/usr/bin/vasak-accounts"@, "/usr/bin/vasak-accounts-sync"@, "/usr/bin/wireplumber"@]
}

/// Whether `binary_path` is one of the delegates.
pub open spec fn es_delegado(binary_path: Seq<char>) -> bool {
    delegados().contains(binary_path)
}

/// Whether this executable may ask on behalf of another process: only an exact
/// path from [`DELEGATE_BINARIES`], never a file that merely has the same name.
pub fn is_delegate(binary_path: &str) -> (r: bool)
    ensures
        r == es_delegado(binary_path@),
{
    let ruta = caracteres(binary_path);
    let mut i: usize = 0;
    while i < 3
        invariant
            i <= 3,
            ruta@ == binary_path@,
            forall|j: int| 0 <= j < i ==> delegados()[j] != binary_path@,
        decreases 3 - i,
    {
        let delegado = DELEGATE_BINARIES[i];
        assert(delegado@ == delegados()[i as int]);
        if iguales(ruta.as_slice(), caracteres(delegado).as_slice()) {
            assert(delegados()[i as int] == binary_path@);
            return true;
        }
        i = i + 1;
    }
    proof {
        if delegados().contains(binary_path@) {
            let j = choose|j: int| 0 <= j < 3 && delegados()[j] == binary_path@;
            assert(delegados()[j] != binary_path@);
        }
    }
    false
}

/// The declared scope of each of the system's own applications: the resources
/// it may ever ask for. Anything outside its scope is refused without asking.
pub open spec fn tabla_de_alcances() -> Seq<(Seq<char>, Seq<Seq<char>>)> {
    seq![
        ("/usr/bin/vasak-file-manager"@, seq!["account.drive"@]),
        ("/usr/bin/vasak-settings"@, Seq::<Seq<char>>::empty()),
        ("/usr/bin/vasak-accounts-sync"@, seq!["account.email"@]),
        ("/usr/bin/vasak-calendar"@, seq!["account.calendar"@]),
        ("/usr/bin/vasak-mail"@, Seq::<Seq<char>>::empty()),
        ("/usr/bin/vasak-contacts"@, seq!["account.contacts"@]),
    ]
}

/// The scope of the first entry at or after `i` whose path is `ruta`.
pub open spec fn alcance_desde(
    t: Seq<(Seq<char>, Seq<Seq<char>>)>,
    ruta: Seq<char>,
    i: int,
) -> Option<Seq<Seq<char>>>
    decreases t.len() - i,
{
    if i < 0 || i >= t.len() {
        None
    } else if t[i].0 == ruta {
        Some(t[i].1)
    } else {
        alcance_desde(t, ruta, i + 1)
    }
}

/// The declared scope of a binary, if it has one.
pub open spec fn alcance(ruta: Seq<char>) -> Option<Seq<Seq<char>>> {
    alcance_desde(tabla_de_alcances(), ruta, 0)
}

/// Whether `ruta` may ever ask for `id`: anything, when it has no declared
/// scope; only what its scope lists, when it has one.
pub open spec fn puede_pedir(ruta: Seq<char>, id: Seq<char>) -> bool {
    match alcance(ruta) {
        Some(a) => a.contains(id),
        None => true,
    }
}

pub open spec fn vista_de_lista(v: Seq<&'static str>) -> Seq<Seq<char>> {
    v.map_values(|s: &'static str| s@)
}

pub open spec fn vista_de_alcances(t: Seq<(&'static str, Vec<&'static str>)>) -> Seq<
    (Seq<char>, Seq<Seq<char>>),
> {
    t.map_values(|e: (&'static str, Vec<&'static str>)| (e.0@, vista_de_lista(e.1@)))
}

/// The table of declared scopes, one entry per binary.
pub fn scoped_binaries() -> (t: Vec<(&'static str, Vec<&'static str>)>)
    ensures
        vista_de_alcances(t@) == tabla_de_alcances(),
{
    let mut t: Vec<(&'static str, Vec<&'static str>)> = Vec::new();
    let mut a: Vec<&'static str> = Vec::new();
    a.push("account.drive");
    t.push(("/usr/bin/vasak-file-manager", a));
    t.push(("/usr/bin/vasak-settings", Vec::new()));
    let mut a: Vec<&'static str> = Vec::new();
    a.push("account.email");
    t.push(("/usr/bin/vasak-accounts-sync", a));
    let mut a: Vec<&'static str> = Vec::new();
    a.push("account.calendar");
    t.push(("/usr/bin/vasak-calendar", a));
    t.push(("/usr/bin/vasak-mail", Vec::new()));
    let mut a: Vec<&'static str> = Vec::new();
    a.push("account.contacts");
    t.push(("/usr/bin/vasak-contacts", a));
    assert(vista_de_lista(t@[0].1@) =~= seq!["account.drive"@]);
    assert(vista_de_lista(t@[1].1@) =~= Seq::<Seq<char>>::empty());
    assert(vista_de_lista(t@[2].1@) =~= seq!["account.email"@]);
    assert(vista_de_lista(t@[3].1@) =~= seq!["account.calendar"@]);
    assert(vista_de_lista(t@[4].1@) =~= Seq::<Seq<char>>::empty());
    assert(vista_de_lista(t@[5].1@) =~= seq!["account.contacts"@]);
    assert(vista_de_alcances(t@) =~= tabla_de_alcances());
    t
}

/// The declared scope of a binary, or `None` when it has none.
pub fn scope_of(binary_path: &str) -> (r: Option<Vec<&'static str>>)
    ensures
        match r {
            Some(v) => alcance(binary_path@) == Some(vista_de_lista(v@)),
            None => alcance(binary_path@) is None,
        },
{
    let t = scoped_binaries();
    let ruta = caracteres(binary_path);
    let mut i: usize = 0;
    while i < t.len()
        invariant
            i <= t@.len(),
            vista_de_alcances(t@) == tabla_de_alcances(),
            ruta@ == binary_path@,
            alcance(binary_path@) == alcance_desde(tabla_de_alcances(), binary_path@, i as int),
        decreases t.len() - i,
    {
        let instalado = caracteres(t[i].0);
        assert(tabla_de_alcances()[i as int].0 == t@[i as int].0@);
        if iguales(instalado.as_slice(), ruta.as_slice()) {
            let mut copia: Vec<&'static str> = Vec::new();
            let mut j: usize = 0;
            while j < t[i].1.len()
                invariant
                    i < t@.len(),
                    j <= t@[i as int].1@.len(),
                    copia@ == t@[i as int].1@.take(j as int),
                decreases t@[i as int].1@.len() - j,
            {
                copia.push(t[i].1[j]);
                assert(t@[i as int].1@.take(j + 1) =~= t@[i as int].1@.take(j as int).push(
                    t@[i as int].1@[j as int],
                ));
                j = j + 1;
            }
            assert(t@[i as int].1@.take(j as int) =~= t@[i as int].1@);
            return Some(copia);
        }
        i = i + 1;
    }
    None
}

/// Whether `binary_path` may ever ask for `resource_id`.
///
/// True for every program outside the table: the scopes bound the system's own
/// applications and enable nobody. Being in the table with a resource does not
/// grant it either; the person still decides.
pub fn may_request(binary_path: &str, resource_id: &str) -> (r: bool)
    ensures
        r == puede_pedir(binary_path@, resource_id@),
{
    match scope_of(binary_path) {
        None => true,
        Some(lista) => {
            let id = caracteres(resource_id);
            let mut i: usize = 0;
            while i < lista.len()
                invariant
                    i <= lista@.len(),
                    id@ == resource_id@,
                    alcance(binary_path@) == Some(vista_de_lista(lista@)),
                    forall|j: int| 0 <= j < i ==> lista@[j]@ != resource_id@,
                decreases lista.len() - i,
            {
                let otro = caracteres(lista[i]);
                if iguales(otro.as_slice(), id.as_slice()) {
                    assert(vista_de_lista(lista@)[i as int] == resource_id@);
                    assert(vista_de_lista(lista@).contains(resource_id@));
                    return true;
                }
                i = i + 1;
            }
            proof {
                if vista_de_lista(lista@).contains(resource_id@) {
                    let k = choose|k: int|
                        0 <= k < vista_de_lista(lista@).len() && vista_de_lista(lista@)[k]
                            == resource_id@;
                    assert(lista@[k]@ == resource_id@);
                }
            }
            false
        },
    }
}

/// What every identity of the portal begins with. The portal hands over an
/// `app_id` the application declared itself, which nobody checks, so those
/// decisions live in a namespace of their own, told apart at a glance from a
/// path in the policy file.
pub const PORTAL_PREFIX: &'static str = "portal:";

/// Whether `key` is an identity of the portal and not an executable's path.
pub open spec fn es_clave_del_portal(key: Seq<char>) -> bool {
    empieza_con(key, PORTAL_PREFIX@)
}

/// Whether `key` is an identity of the portal.
pub fn is_portal_key(key: &str) -> (r: bool)
    ensures
        r == es_clave_del_portal(key@),
{
    empieza(caracteres(key).as_slice(), caracteres(PORTAL_PREFIX).as_slice())
}

/// The key a decision from the portal is stored under: `portal:` and the
/// `app_id`. An empty `app_id`, which is what every program that did not
/// register sends, is no identity: nothing is stored for it and it is asked
/// every time.
pub fn portal_key(app_id: &str) -> (r: Option<String>)
    ensures
        app_id@.len() == 0 ==> r is None,
        app_id@.len() > 0 ==> (r matches Some(k) && k@ == PORTAL_PREFIX@ + app_id@),
{
    let id = caracteres(app_id);
    if id.len() == 0 {
        return None;
    }
    let mut v = caracteres(PORTAL_PREFIX);
    anexar(&mut v, id.as_slice());
    Some(cadena(v.as_slice()))
}

/// The `app_id` an identity of the portal was made from, when `key` is one.
pub fn portal_app_id(key: &str) -> (r: Option<String>)
    ensures
        !es_clave_del_portal(key@) ==> r is None,
        es_clave_del_portal(key@) ==> (r matches Some(a) && a@ == key@.subrange(
            PORTAL_PREFIX@.len() as int,
            key@.len() as int,
        )),
{
    let c = caracteres(key);
    let prefijo = caracteres(PORTAL_PREFIX);
    if !empieza(c.as_slice(), prefijo.as_slice()) {
        return None;
    }
    let resto = tramo(c.as_slice(), prefijo.len(), c.len());
    Some(cadena(resto.as_slice()))
}

/// One capability of the user's online accounts.
#[derive(Debug, Clone, Copy, PartialEq, Eq, Hash, Structural)]
pub enum AccountResource {
    Email,
    Calendar,
    Contacts,
    Chat,
    Drive,
    Tasks,
}

/// One area of the local store the account sync keeps: what was fetched from
/// the online accounts and is read on the machine.
#[derive(Debug, Clone, Copy, PartialEq, Eq, Hash, Structural)]
pub enum StoreArea {
    Email,
    Calendar,
    Contacts,
}

/// Something an application can ask to use.
#[derive(Debug, Clone, Copy, PartialEq, Eq, Hash, Structural)]
pub enum Resource {
    Camera,
    Microphone,
    /// Recording or capturing the screen.
    ScreenCapture,
    Location,
    /// Reading the keyboard globally.
    InputCapture,
    /// The files that prove who you are: SSH and GPG keys, the keyring, the
    /// tokens that log you into things. One decision for all of them.
    Credentials,
    /// One capability of the user's online accounts.
    Account(AccountResource),
    /// One area of the local store of the accounts, read through the sync.
    Store(StoreArea),
}

impl StoreArea {
    /// The stable text form of the area.
    pub open spec fn id(self) -> Seq<char> {
        match self {
            StoreArea::Email => "email"@,
            StoreArea::Calendar => "calendar"@,
            StoreArea::Contacts => "contacts"@,
        }
    }

    /// The area a text names, if it names one.
    pub open spec fn desde_id(s: Seq<char>) -> Option<StoreArea> {
        if s == "email"@ {
            Some(StoreArea::Email)
        } else if s == "calendar"@ {
            Some(StoreArea::Calendar)
        } else if s == "contacts"@ {
            Some(StoreArea::Contacts)
        } else {
            None
        }
    }

    pub fn as_id(&self) -> (r: &'static str)
        ensures
            r@ == self.id(),
    {
        match self {
            StoreArea::Email => "email",
            StoreArea::Calendar => "calendar",
            StoreArea::Contacts => "contacts",
        }
    }

    fn desde_caracteres(c: &[char]) -> (r: Option<Self>)
        ensures
            r == Self::desde_id(c@),
    {
        if iguales(c, caracteres("email").as_slice()) {
            Some(StoreArea::Email)
        } else if iguales(c, caracteres("calendar").as_slice()) {
            Some(StoreArea::Calendar)
        } else if iguales(c, caracteres("contacts").as_slice()) {
            Some(StoreArea::Contacts)
        } else {
            None
        }
    }
}

impl AccountResource {
    /// The stable text form of the capability.
    pub open spec fn id(self) -> Seq<char> {
        match self {
            AccountResource::Email => "email"@,
            AccountResource::Calendar => "calendar"@,
            AccountResource::Contacts => "contacts"@,
            AccountResource::Chat => "chat"@,
            AccountResource::Drive => "drive"@,
            AccountResource::Tasks => "tasks"@,
        }
    }

    /// The capability a text names, if it names one.
    pub open spec fn desde_id(s: Seq<char>) -> Option<AccountResource> {
        if s == "email"@ {
            Some(AccountResource::Email)
        } else if s == "calendar"@ {
            Some(AccountResource::Calendar)
        } else if s == "contacts"@ {
            Some(AccountResource::Contacts)
        } else if s == "chat"@ {
            Some(AccountResource::Chat)
        } else if s == "drive"@ {
            Some(AccountResource::Drive)
        } else if s == "tasks"@ {
            Some(AccountResource::Tasks)
        } else {
            None
        }
    }

    pub fn as_id(&self) -> (r: &'static str)
        ensures
            r@ == self.id(),
    {
        match self {
            AccountResource::Email => "email",
            AccountResource::Calendar => "calendar",
            AccountResource::Contacts => "contacts",
            AccountResource::Chat => "chat",
            AccountResource::Drive => "drive",
            AccountResource::Tasks => "tasks",
        }
    }

    pub fn from_id(id: &str) -> (r: Option<Self>)
        ensures
            r == Self::desde_id(id@),
    {
        let c = caracteres(id);
        Self::desde_caracteres(c.as_slice())
    }

    fn desde_caracteres(c: &[char]) -> (r: Option<Self>)
        ensures
            r == Self::desde_id(c@),
    {
        if iguales(c, caracteres("email").as_slice()) {
            Some(AccountResource::Email)
        } else if iguales(c, caracteres("calendar").as_slice()) {
            Some(AccountResource::Calendar)
        } else if iguales(c, caracteres("contacts").as_slice()) {
            Some(AccountResource::Contacts)
        } else if iguales(c, caracteres("chat").as_slice()) {
            Some(AccountResource::Chat)
        } else if iguales(c, caracteres("drive").as_slice()) {
            Some(AccountResource::Drive)
        } else if iguales(c, caracteres("tasks").as_slice()) {
            Some(AccountResource::Tasks)
        } else {
            None
        }
    }
}

impl Resource {
    /// The stable text form used on the bus and in the stored policy.
    pub open spec fn id(self) -> Seq<char> {
        match self {
            Resource::Camera => "camera"@,
            Resource::Microphone => "microphone"@,
            Resource::ScreenCapture => "screen-capture"@,
            Resource::Location => "location"@,
            Resource::InputCapture => "input-capture"@,
            Resource::Credentials => "credentials"@,
            Resource::Account(a) => "account."@ + a.id(),
            Resource::Store(a) => "store."@ + a.id(),
        }
    }

    /// The resource a text names, if it names one. Anything after
    /// `account.` is read as a capability, and anything after `store.` as an
    /// area of the store, and nothing else.
    pub open spec fn desde_id(s: Seq<char>) -> Option<Resource> {
        if empieza_con(s, "account."@) {
            match AccountResource::desde_id(s.subrange("account."@.len() as int, s.len() as int)) {
                Some(a) => Some(Resource::Account(a)),
                None => None,
            }
        } else if empieza_con(s, "store."@) {
            match StoreArea::desde_id(s.subrange("store."@.len() as int, s.len() as int)) {
                Some(a) => Some(Resource::Store(a)),
                None => None,
            }
        } else if s == "camera"@ {
            Some(Resource::Camera)
        } else if s == "microphone"@ {
            Some(Resource::Microphone)
        } else if s == "screen-capture"@ {
            Some(Resource::ScreenCapture)
        } else if s == "location"@ {
            Some(Resource::Location)
        } else if s == "input-capture"@ {
            Some(Resource::InputCapture)
        } else if s == "credentials"@ {
            Some(Resource::Credentials)
        } else {
            None
        }
    }

    /// Whether a refusal of this can be relied upon: only online accounts,
    /// which are handed out by a service that asks first.
    pub fn is_enforceable(&self) -> (r: bool)
        ensures
            r == (*self is Account),
    {
        matches!(self, Resource::Account(_))
    }

    /// Whether something enforces a decision about this, stored against an
    /// executable's path: the account service for online accounts and for
    /// the areas of their store, the AppArmor exception profiles for the
    /// camera, the microphone and the credentials.
    pub open spec fn tiene_efecto(self) -> bool {
        self is Account || self is Store || self == Resource::Camera || self == Resource::Microphone
            || self == Resource::Credentials
    }

    /// Whether deciding this changes anything at all, stored against an
    /// executable's path.
    pub fn decision_has_effect(&self) -> (r: bool)
        ensures
            r == self.tiene_efecto(),
    {
        matches!(
            self,
            Resource::Account(_) | Resource::Store(_) | Resource::Camera | Resource::Microphone
                | Resource::Credentials
        )
    }

    /// Whether a decision about this has any effect when stored against
    /// `key`. An identity of the portal is only consulted by the portal, which
    /// hands out the camera and the screen: a screen capture recorded against
    /// an executable's path changes nothing, since nobody asks by that path,
    /// and against a portal identity it does; the store is never read through
    /// the portal, so nothing about it is kept there.
    pub open spec fn tiene_efecto_para(self, key: Seq<char>) -> bool {
        if es_clave_del_portal(key) {
            self == Resource::Camera || self == Resource::ScreenCapture
        } else {
            self.tiene_efecto()
        }
    }

    /// Whether deciding this, stored against `key`, changes anything at all.
    pub fn decision_has_effect_for(&self, key: &str) -> (r: bool)
        ensures
            r == self.tiene_efecto_para(key@),
    {
        if is_portal_key(key) {
            matches!(self, Resource::Camera | Resource::ScreenCapture)
        } else {
            self.decision_has_effect()
        }
    }

    /// The stable text form, spelled out by hand: these strings are on disk.
    pub fn as_id(&self) -> (r: String)
        ensures
            r@ == self.id(),
    {
        match self {
            Resource::Camera => "camera".to_owned(),
            Resource::Microphone => "microphone".to_owned(),
            Resource::ScreenCapture => "screen-capture".to_owned(),
            Resource::Location => "location".to_owned(),
            Resource::InputCapture => "input-capture".to_owned(),
            Resource::Credentials => "credentials".to_owned(),
            Resource::Account(capability) => {
                let mut v = caracteres("account.");
                let c = caracteres(capability.as_id());
                anexar(&mut v, c.as_slice());
                cadena(v.as_slice())
            },
            Resource::Store(area) => {
                let mut v = caracteres("store.");
                let c = caracteres(area.as_id());
                anexar(&mut v, c.as_slice());
                cadena(v.as_slice())
            },
        }
    }

    /// The resource an id names; `None` for anything unknown.
    pub fn from_id(id: &str) -> (r: Option<Self>)
        ensures
            r == Self::desde_id(id@),
    {
        let c = caracteres(id);
        let prefijo = caracteres("account.");
        if empieza(c.as_slice(), prefijo.as_slice()) {
            let resto = tramo(c.as_slice(), prefijo.len(), c.len());
            return match AccountResource::desde_caracteres(resto.as_slice()) {
                Some(a) => Some(Resource::Account(a)),
                None => None,
            };
        }
        let prefijo = caracteres("store.");
        if empieza(c.as_slice(), prefijo.as_slice()) {
            let resto = tramo(c.as_slice(), prefijo.len(), c.len());
            return match StoreArea::desde_caracteres(resto.as_slice()) {
                Some(a) => Some(Resource::Store(a)),
                None => None,
            };
        }
        if iguales(c.as_slice(), caracteres("camera").as_slice()) {
            Some(Resource::Camera)
        } else if iguales(c.as_slice(), caracteres("microphone").as_slice()) {
            Some(Resource::Microphone)
        } else if iguales(c.as_slice(), caracteres("screen-capture").as_slice()) {
            Some(Resource::ScreenCapture)
        } else if iguales(c.as_slice(), caracteres("location").as_slice()) {
            Some(Resource::Location)
        } else if iguales(c.as_slice(), caracteres("input-capture").as_slice()) {
            Some(Resource::InputCapture)
        } else if iguales(c.as_slice(), caracteres("credentials").as_slice()) {
            Some(Resource::Credentials)
        } else {
            None
        }
    }
}

/// Every resource id reads back as the resource it was written for, so a
/// decision stored under an id keeps matching the resource it was about.
pub proof fn ids_survive_a_round_trip(r: Resource)
    ensures
        Resource::desde_id(r.id()) == Some(r),
{
    reveal_strlit("account.");
    reveal_strlit("store.");
    reveal_strlit("camera");
    reveal_strlit("microphone");
    reveal_strlit("screen-capture");
    reveal_strlit("location");
    reveal_strlit("input-capture");
    reveal_strlit("credentials");
    reveal_strlit("email");
    reveal_strlit("calendar");
    reveal_strlit("contacts");
    reveal_strlit("chat");
    reveal_strlit("drive");
    reveal_strlit("tasks");
    match r {
        Resource::Account(a) => {
            let s = r.id();
            assert(s.subrange(0, 8) =~= "account."@);
            assert(s.subrange(8, s.len() as int) =~= a.id());
            match a {
                AccountResource::Email => {},
                AccountResource::Calendar => {},
                AccountResource::Contacts => {
                    assert("contacts"@[2] != "calendar"@[2]);
                },
                AccountResource::Chat => {},
                AccountResource::Drive => {
                    assert("drive"@[0] != "email"@[0]);
                },
                AccountResource::Tasks => {
                    assert("tasks"@[0] != "email"@[0]);
                    assert("tasks"@[0] != "drive"@[0]);
                },
            }
            assert(AccountResource::desde_id(a.id()) == Some(a));
            assert(empieza_con(s, "account."@));
            assert(s.subrange("account."@.len() as int, s.len() as int) == a.id());
            assert(Resource::desde_id(s) == Some(Resource::Account(a)));
        },
        Resource::Store(a) => {
            let s = r.id();
            assert(s[0] == 's');
            if s.len() >= 8 {
                assert(s.subrange(0, 8)[0] == s[0]);
            }
            assert(!empieza_con(s, "account."@));
            assert(s.subrange(0, 6) =~= "store."@);
            assert(s.subrange(6, s.len() as int) =~= a.id());
            match a {
                StoreArea::Email => {},
                StoreArea::Calendar => {},
                StoreArea::Contacts => {
                    assert("contacts"@[2] != "calendar"@[2]);
                },
            }
            assert(StoreArea::desde_id(a.id()) == Some(a));
            assert(empieza_con(s, "store."@));
            assert(Resource::desde_id(s) == Some(Resource::Store(a)));
        },
        _ => {
            let s = r.id();
            assert(s[0] != 'a');
            assert(s[0] != 's' || s[1] != 't');
            if s.len() >= 8 {
                assert(s.subrange(0, 8)[0] == s[0]);
            }
            if s.len() >= 6 {
                assert(s.subrange(0, 6)[0] == s[0]);
                assert(s.subrange(0, 6)[1] == s[1]);
            }
            assert(!empieza_con(s, "account."@));
            assert(!empieza_con(s, "store."@));
        },
    }
}

/// Every id that names a resource is that resource's own id: there is one
/// spelling of each resource and no other.
pub proof fn ids_are_canonical(s: Seq<char>)
    requires
        Resource::desde_id(s) is Some,
    ensures
        Resource::desde_id(s).unwrap().id() == s,
{
    reveal_strlit("account.");
    reveal_strlit("store.");
    if empieza_con(s, "account."@) {
        let a = AccountResource::desde_id(s.subrange(8, s.len() as int)).unwrap();
        assert(s =~= s.subrange(0, 8) + s.subrange(8, s.len() as int));
    } else if empieza_con(s, "store."@) {
        let a = StoreArea::desde_id(s.subrange(6, s.len() as int)).unwrap();
        assert(s =~= s.subrange(0, 6) + s.subrange(6, s.len() as int));
    }
}

/// What the stored policy says about one application and one resource.
#[derive(Debug, Clone, Copy, PartialEq, Eq, Structural)]
pub enum Decision {
    Allowed,
    Denied,
    /// Never decided, so the user has to be asked.
    Unknown,
}

impl Decision {
    /// The text form used on the bus and on disk.
    pub open spec fn id(self) -> Seq<char> {
        match self {
            Decision::Allowed => "allowed"@,
            Decision::Denied => "denied"@,
            Decision::Unknown => "unknown"@,
        }
    }

    pub fn as_id(&self) -> (r: &'static str)
        ensures
            r@ == self.id(),
    {
        match self {
            Decision::Allowed => "allowed",
            Decision::Denied => "denied",
            Decision::Unknown => "unknown",
        }
    }

    pub fn from_answer(allowed: bool) -> (r: Self)
        ensures
            r == (if allowed {
                Decision::Allowed
            } else {
                Decision::Denied
            }),
    {
        if allowed {
            Decision::Allowed
        } else {
            Decision::Denied
        }
    }

    pub fn is_allowed(self) -> (r: bool)
        ensures
            r == (self == Decision::Allowed),
    {
        matches!(self, Decision::Allowed)
    }
}

/// How much the service can vouch for the identity of a program.
#[derive(Debug, Clone, Copy, PartialEq, Eq, Structural)]
pub enum Provenance {
    /// Installed under a path only root can write.
    SystemInstalled,
    /// Anywhere the user can write.
    Unverified,
}

/// A program asking for something, as the service sees it.
#[derive(Debug, Clone)]
pub struct Application {
    /// Absolute, symlink-resolved path to the executable: the identity a
    /// decision is recorded against.
    pub binary_path: String,
    /// The name to show a person.
    pub display_name: String,
    pub provenance: Provenance,
}

/// One stored decision set, as listed by the settings interface.
pub struct PermissionEntry {
    /// Whether this program asks the service before using the resource.
    pub asks: bool,
    pub application: Application,
    /// Resource ids mapped to what was decided.
    pub decisions: Tabla<Decision>,
}

/// What the agent is asked to put to the user.
#[derive(Debug, Clone)]
pub struct PermissionRequest {
    pub application: Application,
    pub resource_id: String,
    /// Extra context: which account, or which path was denied.
    pub detail: String,
    /// The AppArmor profile behind a block, when there was one.
    pub profile: String,
}

} // verus!
