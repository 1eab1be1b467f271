//! User-facing strings and their French translations.
//!
//! English is the source language: every message is written in English where
//! it is used, and that English text is its own key. [`t`] looks the key up in
//! the French table when the interface speaks French, and falls back to the
//! English text (without its context prefix) when there is no entry, so a
//! missing translation degrades to English rather than to a key name.
//!
//! Interpolation uses positional `{0}`, `{1}` placeholders: a translation is
//! free to reorder its arguments, which French regularly needs.

use vstd::prelude::*;
use crate::text::{
    contains, chars_of, dec, eq_lit, owned, replace, replaced, split_once, split_once_at, starts_with,
    string_of, begins_str, strs,
};

verus! {

/// Interface language.
#[derive(Debug, Clone, Copy, PartialEq, Eq, Structural)]
pub enum Lang {
    En,
    Fr,
}

/// The active language, given the value settled at startup if any: English
/// until something has been decided.
pub fn lang(setting: Option<Lang>) -> (r: Lang)
    ensures
        r == (match setting {
            Some(l) => l,
            None => Lang::En,
        }),
{
    match setting {
        Some(l) => l,
        None => Lang::En,
    }
}

/// Value following the first `--lang` on the command line, if there is one.
pub open spec fn forced_lang(args: Seq<Seq<char>>) -> Option<Seq<char>> {
    if exists|i: int| 0 <= i < args.len() && args[i] == "--lang"@ && forall|j: int|
        0 <= j < i ==> args[j] != "--lang"@ {
        let i = choose|i: int|
            0 <= i < args.len() && args[i] == "--lang"@ && forall|j: int|
                0 <= j < i ==> args[j] != "--lang"@;
        if i + 1 < args.len() {
            Some(args[i + 1])
        } else {
            None
        }
    } else {
        None
    }
}

/// The language chosen at startup: `--lang fr` forces French and any other
/// `--lang` value English; otherwise the locale variable (the first of
/// `LC_ALL`, `LC_MESSAGES`, `LANG` that is set) decides, French when it starts
/// with `fr`.
pub open spec fn chosen_lang(args: Seq<Seq<char>>, env: Seq<char>) -> Lang {
    match forced_lang(args) {
        Some(v) => if v == "fr"@ {
            Lang::Fr
        } else {
            Lang::En
        },
        None => if starts_with(env, "fr"@) {
            Lang::Fr
        } else {
            Lang::En
        },
    }
}

/// Picks the interface language from the arguments and the locale variable
/// (empty when none is set).
pub fn choose_lang(args: &[String], env: &str) -> (r: Lang)
    ensures
        r == chosen_lang(strs(args@), env@),
{
    let mut i: usize = 0;
    while i < args.len()
        invariant
            i <= args.len(),
            forall|j: int| 0 <= j < i ==> strs(args@)[j] != "--lang"@,
        decreases args.len() - i,
    {
        if eq_lit(&chars_of(args[i].as_str()), "--lang") {
            proof {
                let a = strs(args@);
                let w = i as int;
                assert(0 <= w < a.len() && a[w] == "--lang"@ && forall|j: int|
                    0 <= j < w ==> a[j] != "--lang"@);
                let k = choose|k: int|
                    0 <= k < a.len() && a[k] == "--lang"@ && forall|j: int|
                        0 <= j < k ==> a[j] != "--lang"@;
                if k < w {
                    assert(a[k] != "--lang"@);
                }
                if w < k {
                    assert(a[w] != "--lang"@);
                }
            }
            if i + 1 < args.len() {
                if eq_lit(&chars_of(args[i + 1].as_str()), "fr") {
                    return Lang::Fr;
                }
                return Lang::En;
            }
            return env_lang(env);
        }
        i = i + 1;
    }
    proof {
        let a = strs(args@);
        assert(!exists|w: int| 0 <= w < a.len() && a[w] == "--lang"@ && forall|j: int|
            0 <= j < w ==> a[j] != "--lang"@);
    }
    env_lang(env)
}

fn env_lang(env: &str) -> (r: Lang)
    ensures
        r == (if starts_with(env@, "fr"@) {
            Lang::Fr
        } else {
            Lang::En
        }),
{
    if begins_str(&chars_of(env), "fr") {
        Lang::Fr
    } else {
        Lang::En
    }
}

/// French translations. Keys are the English source strings, verbatim.
pub const FR: [(&'static str, &'static str); 301] = [
    ("B",
     "o"),
    ("KiB",
     "Kio"),
    ("MiB",
     "Mio"),
    ("GiB",
     "Gio"),
    ("TiB",
     "Tio"),
    ("AUR package: no packaging log. paru will show the PKGBUILD before building.",
     "Paquet AUR : pas de journal de packaging. paru affichera le PKGBUILD avant de compiler."),
    ("No release notes published for this tag.",
     "Aucune note de version publiée pour cette étiquette."),
    ("Upstream notes cannot be fetched automatically: {0}",
     "Notes amont non récupérables automatiquement : {0}"),
    ("Packaging log unreachable (network?).",
     "Journal de packaging injoignable (réseau ?)."),
    ("This package has no Arch packaging repository.",
     "Ce paquet n'a pas de dépôt de packaging Arch."),
    ("Updates",
     "Mises à jour"),
    ("New packages",
     "Nouveaux paquets"),
    ("Downgrades",
     "Retours arrière"),
    ("Removals",
     "Suppressions"),
    ("Removed as a cascade",
     "Retirés en cascade"),
    ("paru cache",
     "cache paru"),
    ("cache",
     "cache"),
    ("installed",
     "installé"),
    ("nalarch — packages protected from removal.",
     "nalarch — paquets protégés contre la suppression."),
    ("One name per line. They stay visible in the Orphans tab but cannot be checked for removal.",
     "Un nom par ligne. Ils restent visibles dans l'onglet Orphelins mais ne peuvent pas être cochés pour suppression."),
    ("libalpm only knows about declared dependencies. A package loaded dynamically (a Qt plugin, a Wayland backend, a GStreamer plugin) therefore looks like an orphan while being vital. Hence this list.",
     "libalpm ne connaît que les dépendances déclarées. Un paquet chargé dynamiquement (plugin Qt, backend Wayland, greffon GStreamer) apparaît donc comme orphelin alors qu'il est vital. D'où cette liste."),
    ("Needed by quickshell (Hyprland shell) with no alpm dependency link:",
     "Requis par quickshell (shell Hyprland) sans lien de dépendance alpm :"),
    ("{0} packages · cache {1}",
     "{0} paquets · cache {1}"),
    ("System is up to date.",
     "Système à jour."),
    ("No orphans.",
     "Aucun orphelin."),
    ("Nothing to show.",
     "Rien à afficher."),
    ("Details",
     "Détails"),
    ("Detail",
     "Détail"),
    ("No per-package detail for this action.",
     "Aucun détail par paquet pour cette action."),
    ("Repository",
     "Dépôt"),
    ("Version",
     "Version"),
    ("Target",
     "Cible"),
    ("Note",
     "Note"),
    ("built from source",
     "compilation depuis les sources"),
    ("Download",
     "Téléchargement"),
    ("Size",
     "Taille"),
    ("Installed",
     "Installé"),
    ("explicitly",
     "explicitement"),
    ("as a dependency",
     "comme dépendance"),
    ("🔒 protected — removal blocked",
     "🔒 protégé — suppression bloquée"),
    ("Required by: nothing",
     "Requis par : rien"),
    ("Required by ({0}):",
     "Requis par ({0}) :"),
    ("… and {0} others",
     "… et {0} autres"),
    ("Optional for ({0}):",
     "Optionnel pour ({0}) :"),
    ("Depends on: {0} package(s)",
     "Dépend de : {0} paquet(s)"),
    ("Location",
     "Emplacement"),
    ("Files",
     "Fichiers"),
    ("Total size",
     "Taille totale"),
    ("Retention",
     "Rétention"),
    ("{0} versions per package",
     "{0} versions par paquet"),
    ("Old versions",
     "Anciennes versions"),
    ("Uninstalled packages",
     "Paquets désinstallés"),
    ("The cache is what makes a rollback possible: old versions stay",
     "Le cache est ce qui rend un retour arrière possible : les anciennes"),
    ("reinstallable there through pacman -U. Do not empty it entirely —",
     "versions y restent réinstallables via pacman -U. Ne le videz pas"),
    ("it is the only safety net short of a Btrfs snapshot.",
     "entièrement — c'est le seul filet de sécurité sans instantané Btrfs."),
    ("— applies the configured retention ({0} versions)",
     "— applique la rétention configurée ({0} versions)"),
    ("— purges packages that are no longer installed",
     "— purge les paquets qui ne sont plus installés"),
    ("Package cache",
     "Cache des paquets"),
    ("filter “{0}”",
     "filtre « {0} »"),
    ("No transaction in /var/log/pacman.log.",
     "Aucune transaction dans /var/log/pacman.log."),
    ("No transaction touches this package.",
     "Aucune transaction ne touche ce paquet."),
    ("Date",
     "Date"),
    ("Command",
     "Commande"),
    ("Duration",
     "Durée"),
    ("State",
     "État"),
    ("less than a second",
     "moins d'une seconde"),
    ("interrupted — the log carries no close",
     "interrompue — le journal ne porte pas de clôture"),
    ("Rollback",
     "Retour arrière"),
    ("Nothing to undo: this transaction only reinstalled.",
     "Rien à défaire : cette transaction n'a fait que réinstaller."),
    ("Impossible: none of the versions involved is still in cache.",
     "Impossible : aucune des versions concernées n'est encore en cache."),
    ("{0} package(s) restorable — a complete rollback is possible.",
     "{0} paquet(s) rétablissables — retour complet possible."),
    ("{0} restorable of {1} — {2} out of cache, left as they are.",
     "{0} rétablissables sur {1} — {2} hors cache, laissés en l'état."),
    ("build the inverse transaction",
     "construire la transaction inverse"),
    ("pacman warnings",
     "Avertissements de pacman"),
    ("Operations · {0}",
     "Opérations · {0}"),
    ("out of cache",
     "hors cache"),
    ("Detail · lines {0}-{1} of {2}",
     "Détail · lignes {0}-{1} sur {2}"),
    ("Transaction detail",
     "Détail de la transaction"),
    ("Enter confirms · Esc cancels",
     "Entrée valide · Échap annule"),
    ("{0} transactions since {1} — everything that went through pacman, nalarch or not",
     "{0} transactions depuis le {1} — tout ce qui est passé par pacman, nalarch ou non"),
    ("{0} update(s) frozen by IgnorePkg: {1}",
     "{0} mise(s) à jour figée(s) par IgnorePkg : {1}"),
    ("Points of attention",
     "Points d'attention"),
    ("Points of attention · PgUp/PgDn to scroll",
     "Points d'attention · PgUp/PgDn pour défiler"),
    ("Enter",
     "Entrée"),
    ("Esc",
     "Échap"),
    ("launch",
     "lancer"),
    ("cancel",
     "annuler"),
    ("↑↓ walk the detail",
     "↑↓ parcourir le détail"),
    ("command:",
     "commande :"),
    ("Frozen (IgnorePkg)",
     "Figés (IgnorePkg)"),
    ("of them built (AUR)",
     "dont compilés (AUR)"),
    ("To download",
     "À télécharger"),
    ("Space freed",
     "Place rendue"),
    ("Disk space",
     "Espace disque"),
    ("{0} package(s) cannot be sized",
     "{0} paquet(s) non chiffrables"),
    ("Already cached, nothing to download",
     "Déjà en cache, rien à télécharger"),
    ("Sizes unknown: built from source",
     "Tailles inconnues : compilation"),
    ("Summary",
     "Résumé"),
    ("Nothing in particular to report on this transaction.",
     "Rien de particulier à signaler sur cette transaction."),
    ("cached",
     "en cache"),
    ("Detail · {0} package(s)",
     "Détail · {0} paquet(s)"),
    ("plan:",
     "plan :"),
    ("{0} package(s)",
     "{0} paquet(s)"),
    ("download",
     "téléchargement"),
    ("freed",
     "libéré"),
    ("net",
     "net"),
    ("sizes",
     "tailles"),
    ("unknown before building",
     "inconnues avant compilation"),
    ("running",
     "en cours"),
    ("interrupted (code {0})",
     "interrompu (code {0})"),
    ("failed (code {0})",
     "échec (code {0})"),
    ("step:",
     "étape :"),
    ("Packages",
     "Paquets"),
    ("Latest",
     "Dernier"),
    ("Waiting for the first operations…",
     "En attente des premières opérations…"),
    ("{0} configuration file(s) to merge: {1}",
     "{0} fichier(s) de configuration à fusionner : {1}"),
    ("Your version was kept; the new one waits beside it, unapplied.",
     "Ta version a été conservée ; la nouvelle attend à côté, non appliquée."),
    ("Compare and merge:",
     "Compare et fusionne :"),
    ("(pacman-contrib) — without it, the new configuration never applies.",
     "(pacman-contrib) — sans ça, la nouvelle configuration ne s'applique jamais."),
    ("Reboot required: {0}",
     "Redémarrage nécessaire : {0}"),
    ("input expected",
     "saisie attendue"),
    ("Type your password then Enter — nothing shows, that is normal.",
     "Tape ton mot de passe puis Entrée — rien ne s'affiche, c'est normal."),
    ("Type your answer then Enter · j shows the raw output · Ctrl-C interrupts",
     "Tape ta réponse puis Entrée · j pour voir la sortie brute · Ctrl-C interrompt"),
    ("j paru's raw output · ↑↓ scroll · every other key is forwarded to it",
     "j sortie brute de paru · ↑↓ défiler · les autres touches lui sont transmises"),
    ("Finished · j paru's detailed output · ↑↓ PgUp PgDn scroll · Enter to return",
     "Terminé · j sortie détaillée de paru · ↑↓ PgUp PgDn défiler · Entrée revenir"),
    ("{0} · j raw output · ↑↓ PgUp PgDn scroll · Enter back to the table",
     "{0} · j sortie brute · ↑↓ PgUp PgDn défiler · Entrée revenir au tableau"),
    ("Interrupted",
     "Interrompu"),
    ("Failed (code {0})",
     "Échec (code {0})"),
    ("output of {0}",
     "sortie de {0}"),
    ("output of {0} · scrolled back {1} line(s) · End to return",
     "sortie de {0} · remonté de {1} ligne(s) · Fin pour redescendre"),
    ("Worth noting",
     "À noter"),
    ("fetching the packaging log and the release notes…",
     "récupération du journal de packaging et des notes de version…"),
    ("upstream:",
     "amont :"),
    ("unknown",
     "inconnu"),
    ("Loading…",
     "Chargement…"),
    ("Arch packaging log",
     "Journal de packaging Arch"),
    ("installed version",
     "version installée"),
    ("Upstream release notes",
     "Notes de version amont"),
    ("Nothing published for this version.",
     "Rien de publié pour cette version."),
    ("Changes",
     "Changements"),
    ("back",
     "revenir"),
    ("↑↓ PgUp/PgDn scroll",
     "↑↓ PgUp/PgDn défiler"),
    ("u update",
     "u mettre à jour"),
    ("u remove",
     "u supprimer"),
    ("u roll back",
     "u revenir en arrière"),
    ("u clean",
     "u nettoyer"),
    ("navigate",
     "naviguer"),
    ("tab",
     "onglet"),
    ("space",
     "espace"),
    ("check",
     "cocher"),
    ("all/none",
     "tout/rien"),
    ("protect",
     "protéger"),
    ("changes",
     "changements"),
    ("filter",
     "filtrer"),
    ("filter by package",
     "filtrer par paquet"),
    ("reload",
     "recharger"),
    ("quit",
     "quitter"),
    ("Demo",
     "Démonstration"),
    ("Demo — the system is not modified",
     "Démonstration — aucune modification du système"),
    ("Replayed output: no pacman command is invoked.",
     "Sortie rejouée : aucune commande pacman n'est appelée."),
    ("demo render",
     "rendu de démonstration"),
    ("Partial upgrade",
     "Mise à jour partielle"),
    ("State reloaded",
     "État rechargé"),
    ("a TUI package manager for Arch",
     "gestionnaire de paquets TUI pour Arch"),
    ("start the interface",
     "lance l'interface"),
    ("force the interface language",
     "force la langue de l'interface"),
    ("replay a session without touching the system",
     "rejoue une session sans toucher au système"),
    ("render one screen as plain text (no TTY)",
     "rend un écran en texte brut (sans TTY)"),
    ("this message",
     "ce message"),
    ("finished",
     "terminé"),
    ("starting…",
     "démarrage…"),
    ("every step succeeded",
     "toutes les étapes ont abouti"),
    ("tab|Installed",
     "Installés"),
    ("Orphans",
     "Orphelins"),
    ("History",
     "Historique"),
    ("Cache",
     "Cache"),
    ("{0} is protected — press p to lift the protection",
     "{0} est protégé — touche « p » pour lever la protection"),
    ("{0} package(s) checked",
     "{0} paquet(s) cochés"),
    ("Selection cleared",
     "Sélection vidée"),
    ("{0} to update · {1} to download",
     "{0} à mettre à jour · {1} à télécharger"),
    (" · {0} from the AUR (built from source)",
     " · {0} depuis l'AUR (compilation)"),
    ("{0} to remove · {1} freed",
     "{0} à supprimer · {1} libérés"),
    ("{0} protected",
     "{0} protégé"),
    ("{0} unprotected",
     "{0} déprotégé"),
    ("Failed: {0}",
     "Échec : {0}"),
    ("No package checked — press a to check them all",
     "Aucun paquet coché — « a » pour tout cocher"),
    ("{0} update(s) excluded through --ignore: {1}.",
     "{0} mise(s) à jour exclue(s) via --ignore : {1}."),
    ("A partial upgrade is not supported on Arch: keep it for one-off cases.",
     "Une mise à jour partielle n'est pas supportée sur Arch : à réserver aux cas ponctuels."),
    ("{0} AUR package(s): built from source, with unpredictable duration and size.",
     "{0} paquet(s) AUR : compilation depuis les sources, durée et taille imprévisibles."),
    ("paru will ask its own questions (reading the PKGBUILD, PGP keys).",
     "paru posera ses propres questions (relecture du PKGBUILD, clés PGP)."),
    ("paru will run without asking again: this approval is what counts.",
     "paru s'exécutera sans reposer de question : cette validation fait foi."),
    ("Update · {0} package(s)",
     "Mise à jour · {0} paquet(s)"),
    (", {0} of them new",
     " dont {0} nouveau(x)"),
    (" · {0} left out",
     " · {0} écarté(s)"),
    ("No package checked",
     "Aucun paquet coché"),
    ("Removal · {0} package(s)",
     "Suppression · {0} paquet(s)"),
    ("-Rns also removes dependencies nothing needs any more, along with configuration files.",
     "-Rns retire aussi les dépendances devenues inutiles et les fichiers de configuration."),
    ("Frees roughly {0} of old versions.",
     "Libère environ {0} d'anciennes versions."),
    ("No transaction selected",
     "Aucune transaction sélectionnée"),
    ("This transaction has nothing to undo (a reinstall only)",
     "Cette transaction n'a rien à défaire (réinstallation seule)"),
    ("Rollback impossible: none of the versions involved is still in cache",
     "Retour impossible : aucune des versions concernées n'est encore en cache"),
    ("Transaction of {0} — {1}.",
     "Transaction du {0} — {1}."),
    ("The packages come from local caches: nothing is downloaded, no repository is queried.",
     "Les paquets viennent des caches locaux : rien n'est téléchargé, aucun dépôt n'est interrogé."),
    ("{0} package(s) will stay as they are, for lack of a cached version.",
     "{0} paquet(s) resteront en l'état, faute de version en cache."),
    ("Rollback · {0} package(s) of {1}",
     "Retour arrière · {0} paquet(s) sur {1}"),
    ("Cannot launch: {0}",
     "Lancement impossible : {0}"),
    ("No pending update for this package",
     "Aucune mise à jour en attente pour ce paquet"),
    ("Purge uninstalled packages from the cache",
     "Purge des paquets désinstallés du cache"),
    ("Frees roughly {0} — these packages are no longer installed, but you lose the ability to reinstall them offline.",
     "Libère environ {0} — ces paquets ne sont plus installés, mais tu perds la possibilité de les réinstaller hors ligne."),
    ("preparing",
     "préparation"),
    ("syncing repositories",
     "synchronisation des dépôts"),
    ("downloading",
     "téléchargement"),
    ("verifying",
     "vérification"),
    ("installing",
     "installation"),
    ("post-transaction hooks",
     "crochets de post-transaction"),
    ("building",
     "compilation"),
    ("Downloaded",
     "Téléchargé"),
    ("Verified",
     "Vérifié"),
    ("Installed",
     "Installé"),
    ("Upgraded",
     "Mis à jour"),
    ("Downgraded",
     "Rétrogradé"),
    ("Reinstalled",
     "Réinstallé"),
    ("Removed",
     "Supprimé"),
    ("Hook",
     "Crochet"),
    ("Built",
     "Compilation"),
    ("keyring keys",
     "clés du trousseau"),
    ("package integrity",
     "intégrité des paquets"),
    ("loading files",
     "chargement des fichiers"),
    ("file conflicts",
     "conflits de fichiers"),
    ("available disk space",
     "espace disque disponible"),
    ("{0}: upgrade skipped ({1})",
     "{0} : mise à jour ignorée ({1})"),
    ("permissions differ on {0}",
     "permissions différentes sur {0}"),
    ("file information unreadable: {0}",
     "informations de fichier illisibles : {0}"),
    ("{0}: already up to date, skipped",
     "{0} : déjà à jour, ignoré"),
    ("upgraded",
     "mis à jour"),
    ("downgraded",
     "rétrogradé"),
    ("removed",
     "supprimé"),
    ("reinstalled",
     "réinstallé"),
    ("plural|installed",
     "installés"),
    ("plural|upgraded",
     "mis à jour"),
    ("plural|downgraded",
     "rétrogradés"),
    ("plural|removed",
     "supprimés"),
    ("plural|reinstalled",
     "réinstallés"),
    ("interrupted during: {0}",
     "interrompu pendant : {0}"),
    ("Cleaning the cache (keep {0} versions)",
     "Nettoyage du cache (garder {0} versions)"),
    ("no change",
     "aucune modification"),
    ("system upgrade",
     "mise à jour du système"),
    ("system upgrade · {0}",
     "mise à jour du système · {0}"),
    ("install from file · {0}",
     "installation depuis fichier · {0}"),
    ("removal · {0}",
     "suppression · {0}"),
    ("install · {0}",
     "installation · {0}"),
    ("unknown origin",
     "origine inconnue"),
    ("just now",
     "à l'instant"),
    ("{0} min ago",
     "il y a {0} min"),
    ("{0} h ago",
     "il y a {0} h"),
    ("{0} d ago",
     "il y a {0} j"),
    ("{0} months ago",
     "il y a {0} mois"),
    ("sudo pacman -U ({0} package(s) taken from the local caches)",
     "sudo pacman -U ({0} paquet(s) pris dans les caches locaux)"),
    ("{0} package(s) built from the AUR: {1}",
     "{0} paquet(s) compilés depuis l'AUR : {1}"),
    ("A PKGBUILD is a script run under your account, reviewed by nobody. paru will offer to show it before building: that is the moment to read it.",
     "Un PKGBUILD est un script exécuté sous ton compte, sans relecture par personne. paru proposera de l'afficher avant de compiler : c'est le moment de le lire."),
    ("Partial upgrade: {0} package(s) left out",
     "Mise à jour partielle : {0} paquet(s) écartés"),
    ("Left out: {0}. Arch packages are compiled against one another; keeping old ones alongside new ones can break programs with no apparent connection.",
     "Écartés : {0}. Les paquets d'Arch sont compilés les uns contre les autres ; en garder d'anciens à côté de nouveaux peut casser des programmes sans rapport apparent."),
    ("Until you reboot, plugging in a device or mounting an unusual filesystem may fail: the running kernel's modules are no longer on disk.",
     "Tant que tu n'as pas redémarré, brancher un périphérique ou monter un système de fichiers inhabituel peut échouer : les modules du noyau en cours d'exécution ne sont plus sur le disque."),
    ("{0} DKMS module(s) will be rebuilt, which lengthens the operation.",
     "{0} module(s) DKMS seront recompilés, ce qui allonge l'opération."),
    ("Kernel upgraded ({0}): reboot required",
     "Noyau mis à jour ({0}) : redémarrage nécessaire"),
    ("Essential system components: {0}",
     "Composants système essentiels : {0}"),
    ("Do not interrupt the operation once started. A cut here can stop the machine from booting.",
     "Ne pas interrompre l'opération une fois lancée. Une coupure à ce moment peut empêcher la machine de redémarrer."),
    ("Back to an earlier version: {0}",
     "Retour à une version antérieure : {0}"),
    ("The offered version is older than the installed one. Normal after a deliberate rollback, suspicious otherwise.",
     "La version proposée est plus ancienne que celle installée. C'est normal après un retour en arrière volontaire, suspect sinon."),
    ("{0} new package(s) pulled in as dependencies",
     "{0} nouveau(x) paquet(s) tirés comme dépendances"),
    ("You did not ask for them; they arrive because an upgraded package needs them. {0}{1}",
     "Tu ne les as pas demandés ; ils arrivent parce qu'un paquet mis à jour en a besoin. {0}{1}"),
    ("{0} update(s) available but frozen",
     "{0} mise(s) à jour disponibles mais figées"),
    ("{0}. Held back by IgnorePkg in /etc/pacman.conf: they will not be installed while that line is there.",
     "{0}. Retenues par IgnorePkg dans /etc/pacman.conf : elles ne seront pas installées tant que cette ligne est là."),
    ("{0} extra package(s) will be removed as a cascade",
     "{0} paquet(s) supplémentaires seront retirés en cascade"),
    ("You did not check {0}{1}: they leave because nothing will need them once your selection is gone.",
     "Tu n'as pas coché {0}{1} : ils partent parce que plus rien ne les réclamera une fois ta sélection retirée."),
    ("{0} package(s) still needed by packages that stay: {1}",
     "{0} paquet(s) réclamés par des paquets qui restent : {1}"),
    ("Packages outside this removal depend on them. pacman will refuse the operation, or take along whatever depends on them. Check \"Required by\" in the detail panel before approving.",
     "Des paquets extérieurs à cette suppression en dépendent. pacman refusera l'opération, ou emportera aussi ce qui en dépend. Vérifie « Requis par » dans le détail avant de valider."),
    ("Dependencies loaded at run time are invisible",
     "Les dépendances chargées à l'exécution sont invisibles"),
    ("Qt plugins, Wayland backends, GStreamer modules: nothing declares them, so nothing protects them but keep.list. When in doubt, protect rather than remove.",
     "Greffons Qt, backends Wayland, modules GStreamer : rien ne les déclare, donc rien ne les protège hormis la liste keep.list. En cas de doute, protège plutôt que supprimer."),
    ("Configuration files will be deleted",
     "Les fichiers de configuration seront supprimés"),
    ("The -Rns option also removes dependencies nothing needs any more, along with the package's configuration files. Your own files under ~/ are untouched.",
     "L'option -Rns retire aussi les dépendances devenues inutiles et les fichiers de configuration du paquet. Tes fichiers dans ~/ ne sont pas touchés."),
    ("{0}, and {1} others",
     "{0}, et {1} autres"),
    ("{0} package(s) not found: partial rollback",
     "{0} paquet(s) introuvables : retour partiel"),
    ("These versions are no longer in any local cache and will stay as they are: {0}. They were pruned by paccache, which keeps only {1} version(s) per package.",
     "Ces versions ne sont plus dans aucun cache local et resteront en l'état : {0}. Elles ont été élaguées par paccache, qui ne garde que {1} version(s) par paquet."),
    ("This rollback rebuilds an untested state, not the earlier one",
     "Ce retour reconstruit un état inédit, pas l'état d'avant"),
    ("Fewer than half the packages ({0} of {1}) can go back down. The system would end up with a mix of both versions, never shipped nor tested that way. To really undo a transaction of this size, you need a filesystem snapshot.",
     "Moins de la moitié des paquets ({0} sur {1}) peuvent redescendre. Le système se retrouverait avec un mélange des deux versions, jamais livré ni testé ainsi. Pour revenir vraiment en arrière sur une transaction de cette taille, il faut un instantané du système de fichiers."),
    ("The next full upgrade will undo this rollback",
     "La prochaine mise à jour complète annulera ce retour"),
    ("pacman will offer the recent version again on the next -Syu. To freeze it for good, add IgnorePkg = {0} to /etc/pacman.conf.",
     "pacman reproposera la version récente dès le prochain -Syu. Pour figer durablement, ajoute IgnorePkg = {0} dans /etc/pacman.conf."),
    ("Critical component downgraded: {0}",
     "Composant critique rétrogradé : {0}"),
    ("The whole system is tied to these packages. An earlier version can make pacman itself unusable — keep rescue media within reach.",
     "Tout le système est lié à ces paquets. Une version antérieure peut rendre pacman lui-même inutilisable — garde un support de secours sous la main."),
    ("Partial state: the rest of the system does not go back",
     "État partiel : le reste du système ne redescend pas"),
    ("Only the packages from this transaction go back. If one of them is linked against a library upgraded since, pacman will refuse — or the program will start against a version it does not know.",
     "Seuls les paquets de cette transaction reviennent en arrière. Si l'un d'eux est lié à une bibliothèque mise à jour depuis, pacman refusera — ou le programme se lancera contre une version qu'il ne connaît pas."),
    ("{0} package(s) will be uninstalled",
     "{0} paquet(s) seront désinstallés"),
    ("These are the ones the transaction had installed. Their configuration files under /etc are kept, but everything created since (data, enabled systemd units) stays on disk.",
     "Ce sont ceux que la transaction avait installés. Leurs fichiers de configuration dans /etc sont conservés, mais tout ce qui a été créé depuis (données, unités systemd activées) reste sur le disque."),
    ("{0} warning(s) during the original transaction",
     "{0} avertissement(s) lors de la transaction d'origine"),
    ("Rolling back packages is not rolling back the system",
     "Un retour de paquets n'est pas un retour du système"),
    ("The files the packages laid down go back. What a scriptlet or a hook has written since — a database migration, a rewritten configuration, a regenerated cache — stays as it is. For a real state rollback you need a snapshot (snapper/Btrfs).",
     "Les fichiers posés par les paquets redescendent. Ce qu'un scriptlet ou un hook a écrit depuis — migration de base de données, configuration réécrite, cache régénéré — reste tel quel. Pour un vrai retour d'état, il faut un instantané (snapper/Btrfs)."),
    ("Same upstream version: a rebuild, a packaging fix or a dependency change — no new feature.",
     "Même version amont : une recompilation, une correction d'empaquetage ou un changement de dépendance — aucune nouveauté."),
    ("New upstream version.",
     "Nouvelle version amont."),
    ("{0} is installed, as a dependency: this tab lists only what you installed yourself.",
     "{0} est installé, comme dépendance : cet onglet ne liste que ce que tu as installé toi-même."),
    ("This tab lists only what you installed yourself: dependencies are found in Search.",
     "Cet onglet ne liste que ce que tu as installé toi-même : les dépendances se trouvent dans Recherche."),
];

/// Entry `i` of the table carries `key`.
pub open spec fn has_key_at(key: Seq<char>, i: int) -> bool {
    0 <= i < FR@.len() && FR@[i].0@ == key
}

/// Entry `i` is the last one carrying `key`: later entries override earlier
/// ones, as they would when the table is loaded into a map.
pub open spec fn is_last_key(key: Seq<char>, i: int) -> bool {
    has_key_at(key, i) && forall|j: int| i < j ==> !has_key_at(key, j)
}

/// The French translation of `key`, if the table has one.
pub open spec fn french(key: Seq<char>) -> Option<Seq<char>> {
    if exists|i: int| is_last_key(key, i) {
        Some(FR@[choose|i: int| is_last_key(key, i)].1@)
    } else {
        None
    }
}

/// `"context|Text"` → `"Text"`; a key with no bar is its own text.
pub open spec fn strip_context_spec(s: Seq<char>) -> Seq<char> {
    match split_once(s, "|"@) {
        Some((_, text)) => text,
        None => s,
    }
}

/// A key present somewhere in the table has a translation: among the entries
/// that carry it, one comes last.
pub proof fn lemma_present_key_translates(key: Seq<char>, i: int)
    requires
        has_key_at(key, i),
    ensures
        french(key) is Some,
    decreases FR@.len() - i,
{
    if forall|j: int| i < j ==> !has_key_at(key, j) {
        assert(is_last_key(key, i));
    } else {
        let j = choose|j: int| i < j && has_key_at(key, j);
        lemma_present_key_translates(key, j);
    }
}

/// What a message reads as in the given language.
pub open spec fn translate(l: Lang, key: Seq<char>) -> Seq<char> {
    match l {
        Lang::En => strip_context_spec(key),
        Lang::Fr => match french(key) {
            Some(v) => v,
            None => strip_context_spec(key),
        },
    }
}

/// `{i}`, the placeholder of the `i`-th argument.
pub open spec fn placeholder(i: nat) -> Seq<char> {
    seq!['{'] + dec(i) + seq!['}']
}

/// The arguments substituted in order: `{0}` first, then `{1}`, and so on.
pub open spec fn subst(text: Seq<char>, args: Seq<Seq<char>>) -> Seq<char>
    decreases args.len(),
{
    if args.len() == 0 {
        text
    } else {
        replace(
            subst(text, args.drop_last()),
            placeholder((args.len() - 1) as nat),
            args.last(),
        )
    }
}

/// Index of the entry that translates `key`.
fn find_fr(key: &[char]) -> (r: Option<usize>)
    ensures
        r matches Some(i) ==> is_last_key(key@, i as int) && french(key@) == Some(FR@[i as int].1@),
        r is None ==> french(key@) is None,
{
    let mut i: usize = FR.len();
    while i > 0
        invariant
            i <= FR@.len(),
            forall|j: int| i <= j ==> !has_key_at(key@, j),
        decreases i,
    {
        let e = FR[i - 1];
        if eq_lit(key, e.0) {
            proof {
                let w = i - 1;
                assert(is_last_key(key@, w));
                let k = choose|k: int| is_last_key(key@, k);
                if k < w {
                    assert(!has_key_at(key@, w));
                }
                if w < k {
                    assert(!has_key_at(key@, k));
                }
            }
            return Some(i - 1);
        }
        i = i - 1;
    }
    None
}

/// Drops the context prefix of a key: `"tab|Installed"` → `"Installed"`.
pub fn strip_context(s: &str) -> (r: String)
    ensures
        r@ == strip_context_spec(s@),
{
    let v = chars_of(s);
    match split_once_at(v.as_slice(), "|") {
        Some((_, text)) => string_of(text.as_slice()),
        None => owned(s),
    }
}

/// Translates a message. The English text is its own key.
///
/// A key may carry a context prefix, `"context|Text"`, for the cases where the
/// same English word needs two different translations; English keeps only the
/// part after the bar.
pub fn t(l: Lang, s: &str) -> (r: String)
    ensures
        r@ == translate(l, s@),
{
    match l {
        Lang::En => strip_context(s),
        Lang::Fr => {
            let k = chars_of(s);
            match find_fr(k.as_slice()) {
                Some(i) => owned(FR[i].1),
                None => strip_context(s),
            }
        },
    }
}

/// Translates, then substitutes `{0}`, `{1}`… by position.
pub fn tf(l: Lang, s: &str, args: &[&str]) -> (r: String)
    ensures
        r@ == subst(translate(l, s@), args@.map_values(|a: &str| a@)),
{
    let translated = t(l, s);
    let mut out = chars_of(translated.as_str());
    let ghost all = args@.map_values(|a: &str| a@);
    let mut i: usize = 0;
    assert(all.take(0) =~= seq![]);
    while i < args.len()
        invariant
            i <= args.len(),
            all == args@.map_values(|a: &str| a@),
            out@ == subst(translate(l, s@), all.take(i as int)),
        decreases args.len() - i,
    {
        let mut ph: Vec<char> = Vec::new();
        ph.push('{');
        let digits = crate::text::fmt_usize(i);
        crate::text::append(&mut ph, digits.as_slice());
        ph.push('}');
        assert(ph@ =~= placeholder(i as nat));
        let a = chars_of(args[i]);
        out = replaced(out.as_slice(), ph.as_slice(), a.as_slice());
        assert(all.take(i + 1).drop_last() =~= all.take(i as int));
        assert(all.take(i + 1).last() == a@);
        i = i + 1;
    }
    assert(all.take(args.len() as int) =~= all);
    string_of(out.as_slice())
}

/// The French table, for anyone who needs to walk it.
pub fn table() -> (r: &'static [(&'static str, &'static str)])
    ensures
        r@ == FR@,
{
    FR.as_slice()
}

/// In English a message is its own text: a key without a context bar reads
/// exactly as written.
pub proof fn law_english_is_the_key(key: Seq<char>)
    requires
        !contains(key, "|"@),
    ensures
        translate(Lang::En, key) == key,
{
    crate::text::lemma_find_absent(key, "|"@);
}

/// A French message with no entry in the table degrades to its English text,
/// never to a key name.
pub proof fn law_missing_translation_falls_back(key: Seq<char>)
    requires
        french(key) is None,
    ensures
        translate(Lang::Fr, key) == translate(Lang::En, key),
{
}

} // verus!
